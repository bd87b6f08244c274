//! Laws of the derived layouts: what every record and variant layout keeps.
use vstd::prelude::*;
use crate::size_description::{
    alignment_prefix, num_args_prefix, record_num_args,
    aligned_fields, end_of_prefix, field_end, field_start, lemma_field_bounds,
    lemma_payload_prefix_bounds, lemma_prefix_bounds, lemma_record_bounds, payload_alignment_prefix,
    payload_args_prefix, payload_size_prefix, record_alignment, record_byte_size,
    record_layout_entry, variant_alignment, variant_byte_size, variant_num_args, SizeDescription,
    MAX_CASES,
};
use crate::size_math::{lemma_round_up, max_int};

verus! {

/// Every field of a record starts at a multiple of its own alignment, and the
/// first field starts at offset 0.
pub proof fn law_record_fields_aligned(fields: Seq<SizeDescription>, i: int)
    requires
        aligned_fields(fields),
        0 <= i < fields.len(),
    ensures
        field_start(fields, i) % (fields[i].alignment as int) == 0,
        record_layout_entry(fields, 2 * i) == field_start(fields, i),
        record_layout_entry(fields, 2 * i + 1) == field_end(fields, i),
        field_end(fields, i) - field_start(fields, i) == fields[i].byte_size,
        field_start(fields, 0) == 0,
{
    lemma_field_bounds(fields, i);
    assert(fields[0].alignment > 0);
    lemma_round_up(0, fields[0].alignment as int);
    assert((2 * i) / 2 == i);
    assert((2 * i) % 2 == 0);
    assert((2 * i + 1) / 2 == i);
    assert((2 * i + 1) % 2 == 1);
}

/// Consecutive fields of a record do not overlap, and between them there is
/// less padding than the alignment of the second.
pub proof fn law_record_fields_disjoint(fields: Seq<SizeDescription>, i: int)
    requires
        aligned_fields(fields),
        0 <= i,
        i + 1 < fields.len(),
    ensures
        field_end(fields, i) <= field_start(fields, i + 1),
        field_start(fields, i + 1) - field_end(fields, i) < fields[i + 1].alignment,
{
    lemma_field_bounds(fields, i);
    lemma_field_bounds(fields, i + 1);
}

/// A record's byte size covers all its fields with less padding than its
/// alignment after the last, and is a multiple of its alignment.
pub proof fn law_record_size_covers_fields(fields: Seq<SizeDescription>, i: int)
    requires
        aligned_fields(fields),
        0 <= i < fields.len(),
    ensures
        field_end(fields, i) <= record_byte_size(fields),
        record_byte_size(fields) % record_alignment(fields) == 0,
        record_byte_size(fields) - end_of_prefix(fields, fields.len() as int) < record_alignment(
            fields,
        ),
{
    lemma_field_bounds(fields, i);
    lemma_record_bounds(fields, i + 1);
}

/// A record's alignment is the largest alignment among its fields, or 1 for a
/// record without fields.
pub proof fn law_record_alignment_is_largest(fields: Seq<SizeDescription>)
    requires
        aligned_fields(fields),
    ensures
        record_alignment(fields) >= 1,
        forall|i: int| 0 <= i < fields.len() ==> record_alignment(fields) >= #[trigger] fields[i].alignment,
        record_alignment(fields) == 1 || exists|i: int|
            0 <= i < fields.len() && record_alignment(fields) == #[trigger] fields[i].alignment,
{
    lemma_alignment_prefix_is_largest(fields, fields.len() as int);
}

proof fn lemma_alignment_prefix_is_largest(fields: Seq<SizeDescription>, k: int)
    requires
        aligned_fields(fields),
        0 <= k <= fields.len(),
    ensures
        crate::size_description::alignment_prefix(fields, k) >= 1,
        forall|i: int|
            0 <= i < k ==> crate::size_description::alignment_prefix(fields, k)
                >= #[trigger] fields[i].alignment,
        crate::size_description::alignment_prefix(fields, k) == 1 || exists|i: int|
            0 <= i < k && crate::size_description::alignment_prefix(fields, k)
                == #[trigger] fields[i].alignment,
    decreases k,
{
    if k > 0 {
        lemma_alignment_prefix_is_largest(fields, k - 1);
        let prev = crate::size_description::alignment_prefix(fields, k - 1);
        if prev < fields[k - 1].alignment {
            assert(crate::size_description::alignment_prefix(fields, k) == fields[k - 1].alignment);
        } else if prev != 1 {
            let w = choose|i: int| 0 <= i < k - 1 && prev == #[trigger] fields[i].alignment;
            assert(0 <= w < k && crate::size_description::alignment_prefix(fields, k)
                == fields[w].alignment);
        }
    }
}

/// The layout of a record never goes backwards: its entries ascend from the
/// first field's start to the byte size.
pub proof fn law_record_layout_ascends(fields: Seq<SizeDescription>, j: int, k: int)
    requires
        aligned_fields(fields),
        0 <= j <= k < 2 * fields.len() + 1,
    ensures
        0 <= record_layout_entry(fields, j) <= record_layout_entry(fields, k),
        record_layout_entry(fields, 2 * fields.len() as int) == record_byte_size(fields),
    decreases k - j,
{
    let n = fields.len() as int;
    lemma_record_bounds(fields, 0);
    if j < k {
        law_record_layout_ascends(fields, j, k - 1);
        // entry(k - 1) <= entry(k)
        let m = k - 1;
        if k < 2 * n {
            if k % 2 == 1 {
                assert(m / 2 == k / 2);
                lemma_field_bounds(fields, k / 2);
            } else {
                assert(m / 2 + 1 == k / 2);
                assert(m % 2 == 1);
                lemma_field_bounds(fields, m / 2);
                lemma_field_bounds(fields, k / 2);
            }
        } else {
            assert(m == 2 * n - 1);
            assert(m / 2 == n - 1);
            assert(m % 2 == 1);
            lemma_field_bounds(fields, n - 1);
            lemma_record_bounds(fields, n);
        }
    } else {
        // 0 <= entry(j)
        if j < 2 * n {
            lemma_field_bounds(fields, j / 2);
            lemma_prefix_bounds(fields, 0, j / 2);
        } else {
            lemma_prefix_bounds(fields, 0, n);
        }
    }
}

/// In a variant, every payload fits after the discriminant: the variant is at
/// least as aligned as the payload, its byte size leaves room for the payload
/// after one alignment's worth of discriminant, and its argument count covers
/// the discriminant and the payload's arguments.
pub proof fn law_variant_payload_fits(cases: Seq<Option<SizeDescription>>, i: int)
    requires
        0 <= i < cases.len(),
        cases[i] is Some,
    ensures
        variant_alignment(cases) >= cases[i]->Some_0.alignment,
        variant_alignment(cases) >= 1,
        variant_alignment(cases) + cases[i]->Some_0.byte_size <= variant_byte_size(cases),
        variant_num_args(cases) >= 1 + cases[i]->Some_0.num_args,
{
    lemma_payload_prefix_bounds(cases, i + 1, cases.len() as int);
    lemma_payload_prefix_bounds(cases, i, i + 1);
    let p = cases[i]->Some_0;
    assert(payload_alignment_prefix(cases, i + 1) == max_int(
        payload_alignment_prefix(cases, i),
        p.alignment as int,
    ));
    assert(payload_size_prefix(cases, i + 1) == max_int(
        payload_size_prefix(cases, i),
        p.byte_size as int,
    ));
    assert(payload_args_prefix(cases, i + 1) == max_int(
        payload_args_prefix(cases, i),
        p.num_args as int,
    ));
}

/// A record without fields takes no arguments and has alignment 1.
pub proof fn law_record_empty()
    ensures
        record_num_args(Seq::<SizeDescription>::empty()) == 0,
        record_alignment(Seq::<SizeDescription>::empty()) == 1,
        record_byte_size(Seq::<SizeDescription>::empty()) == 0,
        end_of_prefix(Seq::<SizeDescription>::empty(), 0) == 0,
{
    lemma_round_up(0, 1);
}

/// Quantities of the first `k` fields do not depend on the fields after them.
proof fn lemma_prefix_push(fields: Seq<SizeDescription>, f: SizeDescription, k: int)
    requires
        0 <= k <= fields.len(),
    ensures
        num_args_prefix(fields.push(f), k) == num_args_prefix(fields, k),
        alignment_prefix(fields.push(f), k) == alignment_prefix(fields, k),
        end_of_prefix(fields.push(f), k) == end_of_prefix(fields, k),
    decreases k,
{
    if k > 0 {
        lemma_prefix_push(fields, f, k - 1);
        assert(fields.push(f)[k - 1] == fields[k - 1]);
    }
}

/// A record's argument count is the sum of its fields' argument counts: adding
/// a field adds exactly that field's count.
pub proof fn law_record_num_args_adds_up(fields: Seq<SizeDescription>, f: SizeDescription)
    ensures
        record_num_args(fields.push(f)) == record_num_args(fields) + f.num_args,
{
    lemma_prefix_push(fields, f, fields.len() as int);
    assert(fields.push(f)[fields.len() as int] == f);
}

/// Adding a field makes a record's alignment the larger of the record's and the field's.
pub proof fn law_record_alignment_grows(fields: Seq<SizeDescription>, f: SizeDescription)
    ensures
        record_alignment(fields.push(f)) == max_int(record_alignment(fields), f.alignment as int),
{
    lemma_prefix_push(fields, f, fields.len() as int);
    assert(fields.push(f)[fields.len() as int] == f);
}

/// Adding a field places it at the first offset at or after the end of the
/// others that is a multiple of its alignment, and it ends its size later.
pub proof fn law_record_field_placed_after(fields: Seq<SizeDescription>, f: SizeDescription)
    requires
        aligned_fields(fields),
        f.alignment > 0,
    ensures
        field_start(fields.push(f), fields.len() as int) % (f.alignment as int) == 0,
        end_of_prefix(fields, fields.len() as int) <= field_start(
            fields.push(f),
            fields.len() as int,
        ),
        field_start(fields.push(f), fields.len() as int) < end_of_prefix(
            fields,
            fields.len() as int,
        ) + f.alignment,
        end_of_prefix(fields.push(f), fields.len() + 1int) == field_start(
            fields.push(f),
            fields.len() as int,
        ) + f.byte_size,
{
    let n = fields.len() as int;
    lemma_prefix_push(fields, f, n);
    assert(fields.push(f)[n] == f);
    lemma_prefix_bounds(fields, 0, n);
    lemma_round_up(end_of_prefix(fields, n), f.alignment as int);
}

/// Over the first `k` cases, each prefix maximum is at least every payload's
/// value and is either its starting value or some payload's value.
proof fn lemma_payload_prefix_attained(cases: Seq<Option<SizeDescription>>, k: int)
    requires
        0 <= k <= cases.len(),
    ensures
        forall|i: int|
            0 <= i < k && #[trigger] cases[i] is Some ==> {
                &&& payload_alignment_prefix(cases, k) >= cases[i]->Some_0.alignment
                &&& payload_size_prefix(cases, k) >= cases[i]->Some_0.byte_size
                &&& payload_args_prefix(cases, k) >= cases[i]->Some_0.num_args
            },
        payload_alignment_prefix(cases, k) == 1 || exists|i: int|
            0 <= i < k && #[trigger] cases[i] is Some && payload_alignment_prefix(cases, k)
                == cases[i]->Some_0.alignment,
        payload_size_prefix(cases, k) == 0 || exists|i: int|
            0 <= i < k && #[trigger] cases[i] is Some && payload_size_prefix(cases, k)
                == cases[i]->Some_0.byte_size,
        payload_args_prefix(cases, k) == 0 || exists|i: int|
            0 <= i < k && #[trigger] cases[i] is Some && payload_args_prefix(cases, k)
                == cases[i]->Some_0.num_args,
    decreases k,
{
    if k > 0 {
        lemma_payload_prefix_attained(cases, k - 1);
        let last = k - 1;
        if cases[last] is Some {
            let p = cases[last]->Some_0;
            let a0 = payload_alignment_prefix(cases, last);
            let s0 = payload_size_prefix(cases, last);
            let n0 = payload_args_prefix(cases, last);
            if a0 < p.alignment {
                assert(0 <= last < k && cases[last] is Some && payload_alignment_prefix(cases, k)
                    == p.alignment);
            } else if a0 != 1 {
                let w = choose|i: int|
                    0 <= i < last && #[trigger] cases[i] is Some && a0 == cases[i]->Some_0.alignment;
                assert(0 <= w < k && cases[w] is Some);
            }
            if s0 < p.byte_size {
                assert(0 <= last < k && cases[last] is Some && payload_size_prefix(cases, k)
                    == p.byte_size);
            } else if s0 != 0 {
                let w = choose|i: int|
                    0 <= i < last && #[trigger] cases[i] is Some && s0 == cases[i]->Some_0.byte_size;
                assert(0 <= w < k && cases[w] is Some);
            }
            if n0 < p.num_args {
                assert(0 <= last < k && cases[last] is Some && payload_args_prefix(cases, k)
                    == p.num_args);
            } else if n0 != 0 {
                let w = choose|i: int|
                    0 <= i < last && #[trigger] cases[i] is Some && n0 == cases[i]->Some_0.num_args;
                assert(0 <= w < k && cases[w] is Some);
            }
        } else {
            if payload_alignment_prefix(cases, last) != 1 {
                let w = choose|i: int|
                    0 <= i < last && #[trigger] cases[i] is Some && payload_alignment_prefix(
                        cases,
                        last,
                    ) == cases[i]->Some_0.alignment;
                assert(0 <= w < k && cases[w] is Some);
            }
            if payload_size_prefix(cases, last) != 0 {
                let w = choose|i: int|
                    0 <= i < last && #[trigger] cases[i] is Some && payload_size_prefix(cases, last)
                        == cases[i]->Some_0.byte_size;
                assert(0 <= w < k && cases[w] is Some);
            }
            if payload_args_prefix(cases, last) != 0 {
                let w = choose|i: int|
                    0 <= i < last && #[trigger] cases[i] is Some && payload_args_prefix(cases, last)
                        == cases[i]->Some_0.num_args;
                assert(0 <= w < k && cases[w] is Some);
            }
        }
    }
}

/// A variant's alignment is the largest alignment among its payloads, or 1 where
/// no case has a payload.
pub proof fn law_variant_alignment_is_largest(cases: Seq<Option<SizeDescription>>)
    ensures
        variant_alignment(cases) >= 1,
        forall|i: int|
            0 <= i < cases.len() && #[trigger] cases[i] is Some ==> variant_alignment(cases)
                >= cases[i]->Some_0.alignment,
        variant_alignment(cases) == 1 || exists|i: int|
            0 <= i < cases.len() && #[trigger] cases[i] is Some && variant_alignment(cases)
                == cases[i]->Some_0.alignment,
{
    lemma_payload_prefix_attained(cases, cases.len() as int);
    lemma_payload_prefix_bounds(cases, 0, cases.len() as int);
}

/// A variant's byte size is its alignment (the discriminant's room) plus the
/// size of its largest payload, plus nothing where no case has a payload.
pub proof fn law_variant_byte_size_is_alignment_plus_largest_payload(
    cases: Seq<Option<SizeDescription>>,
)
    ensures
        variant_byte_size(cases) >= variant_alignment(cases),
        forall|i: int|
            0 <= i < cases.len() && #[trigger] cases[i] is Some ==> variant_byte_size(cases)
                - variant_alignment(cases) >= cases[i]->Some_0.byte_size,
        variant_byte_size(cases) == variant_alignment(cases) || exists|i: int|
            0 <= i < cases.len() && #[trigger] cases[i] is Some && variant_byte_size(cases)
                == variant_alignment(cases) + cases[i]->Some_0.byte_size,
{
    lemma_payload_prefix_attained(cases, cases.len() as int);
    lemma_payload_prefix_bounds(cases, 0, cases.len() as int);
}

/// A variant takes one argument for the discriminant plus as many as its
/// largest payload takes, and no more.
pub proof fn law_variant_num_args_is_one_plus_largest_payload(cases: Seq<Option<SizeDescription>>)
    ensures
        variant_num_args(cases) >= 1,
        forall|i: int|
            0 <= i < cases.len() && #[trigger] cases[i] is Some ==> variant_num_args(cases) - 1
                >= cases[i]->Some_0.num_args,
        variant_num_args(cases) == 1 || exists|i: int|
            0 <= i < cases.len() && #[trigger] cases[i] is Some && variant_num_args(cases) == 1
                + cases[i]->Some_0.num_args,
{
    lemma_payload_prefix_attained(cases, cases.len() as int);
    lemma_payload_prefix_bounds(cases, 0, cases.len() as int);
}

/// Enums and variants are accepted with exactly as many cases as a one-byte
/// discriminant tells apart.
pub proof fn law_case_limit_is_one_byte()
    ensures
        MAX_CASES == u8::MAX as int + 1,
{
}

} // verus!



