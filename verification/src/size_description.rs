//! Size, alignment and field layout of values passed across the host boundary.
//!
//! A type's description gives its alignment, its byte size and the number of
//! flat arguments it is passed as. The functions here derive the description
//! of a record (struct or tuple), of a flag-like enum and of a variant from the
//! descriptions of their parts.
use vstd::prelude::*;
use crate::size_math::{checked_next_multiple_of, lemma_round_up, max_int, round_up, usize_max};

verus! {

/// Size facts of one type: its alignment, its size in bytes and the number of
/// flat arguments a value of it is passed as.
#[derive(Clone, Copy, Debug, PartialEq, Eq, Structural)]
pub struct SizeDescription {
    pub alignment: usize,
    pub byte_size: usize,
    pub num_args: usize,
}

/// The description derived for a type, with its layout: for each field its start
/// and end offset, in order, followed by the type's byte size.
#[derive(Debug)]
pub struct SizeDescriptionImpl {
    pub alignment: usize,
    pub byte_size: usize,
    pub num_args: usize,
    pub layout: Vec<usize>,
}

/// Why a description could not be derived.
#[derive(Clone, Copy, Debug, PartialEq, Eq, Structural)]
pub enum LayoutError {
    /// An enum with more cases than one byte can tell apart.
    TooManyEnumCases,
    /// A variant with more cases than one byte can tell apart.
    TooManyVariantCases,
    /// A size or an argument count does not fit in a `usize`.
    Overflow,
}

/// The most cases a one-byte discriminant can tell apart.
pub const MAX_CASES: usize = 256;

impl LayoutError {
    /// The message reported for this error.
    pub fn message(&self) -> (r: &'static str)
        ensures
            *self == LayoutError::TooManyEnumCases ==> r@
                == "Enums with more than 256 values are not yet supported."@,
            *self == LayoutError::TooManyVariantCases ==> r@
                == "Variants with more than 256 values are not yet supported."@,
            *self == LayoutError::Overflow ==> r@ == "Size computation overflows usize."@,
    {
        match self {
            LayoutError::TooManyEnumCases => "Enums with more than 256 values are not yet supported.",
            LayoutError::TooManyVariantCases => "Variants with more than 256 values are not yet supported.",
            LayoutError::Overflow => "Size computation overflows usize.",
        }
    }
}

// ---------------------------------------------------------------------------
// Records: structs and tuples
// ---------------------------------------------------------------------------

/// Every field has a non-zero alignment.
pub open spec fn aligned_fields(fields: Seq<SizeDescription>) -> bool {
    forall|i: int| 0 <= i < fields.len() ==> #[trigger] fields[i].alignment > 0
}

/// The alignment of a record of the first `k` fields: the largest field alignment, at least 1.
pub open spec fn alignment_prefix(fields: Seq<SizeDescription>, k: int) -> int
    decreases k,
{
    if k <= 0 {
        1
    } else {
        max_int(alignment_prefix(fields, k - 1), fields[k - 1].alignment as int)
    }
}

/// The number of flat arguments of the first `k` fields together.
pub open spec fn num_args_prefix(fields: Seq<SizeDescription>, k: int) -> int
    decreases k,
{
    if k <= 0 {
        0
    } else {
        num_args_prefix(fields, k - 1) + fields[k - 1].num_args
    }
}

/// Where the first `k` fields end, each laid out at the next offset aligned for it.
pub open spec fn end_of_prefix(fields: Seq<SizeDescription>, k: int) -> int
    decreases k,
{
    if k <= 0 {
        0
    } else {
        round_up(end_of_prefix(fields, k - 1), fields[k - 1].alignment as int) + fields[k
            - 1].byte_size
    }
}

/// The offset of field `i`: the end of the fields before it, rounded up to its alignment.
pub open spec fn field_start(fields: Seq<SizeDescription>, i: int) -> int {
    round_up(end_of_prefix(fields, i), fields[i].alignment as int)
}

/// The offset just past field `i`.
pub open spec fn field_end(fields: Seq<SizeDescription>, i: int) -> int {
    field_start(fields, i) + fields[i].byte_size
}

/// The alignment of a record: the largest field alignment, at least 1.
pub open spec fn record_alignment(fields: Seq<SizeDescription>) -> int {
    alignment_prefix(fields, fields.len() as int)
}

/// The number of flat arguments of a record: those of its fields, added up.
pub open spec fn record_num_args(fields: Seq<SizeDescription>) -> int {
    num_args_prefix(fields, fields.len() as int)
}

/// The byte size of a record: the end of its last field, rounded up to the record's alignment.
pub open spec fn record_byte_size(fields: Seq<SizeDescription>) -> int {
    round_up(end_of_prefix(fields, fields.len() as int), record_alignment(fields))
}

/// Entry `k` of a record's layout: starts and ends of the fields in turn, then the byte size.
pub open spec fn record_layout_entry(fields: Seq<SizeDescription>, k: int) -> int {
    if k < 2 * fields.len() {
        if k % 2 == 0 {
            field_start(fields, k / 2)
        } else {
            field_end(fields, k / 2)
        }
    } else {
        record_byte_size(fields)
    }
}

/// The record's byte size and argument count fit in a `usize`.
pub open spec fn record_fits(fields: Seq<SizeDescription>) -> bool {
    &&& record_byte_size(fields) <= usize::MAX
    &&& record_num_args(fields) <= usize::MAX
}

/// `d` is the description of a record with these fields.
pub open spec fn describes_record(d: SizeDescriptionImpl, fields: Seq<SizeDescription>) -> bool {
    &&& d.alignment == record_alignment(fields)
    &&& d.byte_size == record_byte_size(fields)
    &&& d.num_args == record_num_args(fields)
    &&& d.layout@.len() == 2 * fields.len() + 1
    &&& forall|k: int|
        0 <= k < d.layout@.len() ==> #[trigger] d.layout@[k] == record_layout_entry(fields, k)
}

/// Prefix quantities are non-negative, and the alignment is at least 1.
proof fn lemma_prefix_nonneg(fields: Seq<SizeDescription>, k: int)
    requires
        aligned_fields(fields),
        0 <= k <= fields.len(),
    ensures
        1 <= alignment_prefix(fields, k),
        0 <= num_args_prefix(fields, k),
        0 <= end_of_prefix(fields, k),
    decreases k,
{
    if k > 0 {
        lemma_prefix_nonneg(fields, k - 1);
        assert(fields[k - 1].alignment > 0);
        lemma_round_up(end_of_prefix(fields, k - 1), fields[k - 1].alignment as int);
    }
}

/// A prefix of the fields is no wider aligned than a longer one and ends no later.
pub proof fn lemma_prefix_bounds(fields: Seq<SizeDescription>, j: int, k: int)
    requires
        aligned_fields(fields),
        0 <= j <= k <= fields.len(),
    ensures
        1 <= alignment_prefix(fields, j) <= alignment_prefix(fields, k),
        0 <= num_args_prefix(fields, j) <= num_args_prefix(fields, k),
        0 <= end_of_prefix(fields, j) <= end_of_prefix(fields, k),
    decreases k - j,
{
    lemma_prefix_nonneg(fields, j);
    if j < k {
        lemma_prefix_bounds(fields, j, k - 1);
        lemma_prefix_nonneg(fields, k - 1);
        let a = fields[k - 1].alignment as int;
        assert(a > 0);
        lemma_round_up(end_of_prefix(fields, k - 1), a);
    }
}

/// Each field starts at or after the end of the fields before it, less than one
/// alignment later, at a multiple of its alignment, and ends where the next prefix ends.
pub proof fn lemma_field_bounds(fields: Seq<SizeDescription>, i: int)
    requires
        aligned_fields(fields),
        0 <= i < fields.len(),
    ensures
        end_of_prefix(fields, i) <= field_start(fields, i),
        field_start(fields, i) < end_of_prefix(fields, i) + fields[i].alignment,
        field_start(fields, i) % (fields[i].alignment as int) == 0,
        field_start(fields, i) <= field_end(fields, i),
        field_end(fields, i) == end_of_prefix(fields, i + 1),
{
    lemma_prefix_bounds(fields, 0, i);
    assert(fields[i].alignment > 0);
    lemma_round_up(end_of_prefix(fields, i), fields[i].alignment as int);
}

/// Everything the layout holds is bounded by the byte size, which is a multiple
/// of the record's alignment.
pub proof fn lemma_record_bounds(fields: Seq<SizeDescription>, k: int)
    requires
        aligned_fields(fields),
        0 <= k <= fields.len(),
    ensures
        end_of_prefix(fields, k) <= end_of_prefix(fields, fields.len() as int),
        end_of_prefix(fields, fields.len() as int) <= record_byte_size(fields),
        record_byte_size(fields) < end_of_prefix(fields, fields.len() as int) + record_alignment(
            fields,
        ),
        record_byte_size(fields) % record_alignment(fields) == 0,
        record_alignment(fields) >= 1,
{
    let n = fields.len() as int;
    lemma_prefix_bounds(fields, k, n);
    lemma_prefix_bounds(fields, 0, n);
    lemma_round_up(end_of_prefix(fields, n), record_alignment(fields));
}

/// The alignment of a record: the largest field alignment, at least 1.
fn record_alignment_of(fields: &[SizeDescription]) -> (r: usize)
    ensures
        r == record_alignment(fields@),
{
    let mut alignment: usize = 1;
    let mut i: usize = 0;
    while i < fields.len()
        invariant
            i <= fields@.len(),
            alignment == alignment_prefix(fields@, i as int),
        decreases fields@.len() - i,
    {
        alignment = usize_max(alignment, fields[i].alignment);
        i += 1;
    }
    alignment
}

/// The number of flat arguments of a record, or `None` where it does not fit.
fn record_num_args_of(fields: &[SizeDescription]) -> (r: Option<usize>)
    ensures
        match r {
            Some(n) => n == record_num_args(fields@),
            None => record_num_args(fields@) > usize::MAX,
        },
{
    let mut num_args: usize = 0;
    let mut i: usize = 0;
    while i < fields.len()
        invariant
            i <= fields@.len(),
            num_args == num_args_prefix(fields@, i as int),
        decreases fields@.len() - i,
    {
        match num_args.checked_add(fields[i].num_args) {
            Some(sum) => {
                num_args = sum;
            },
            None => {
                proof {
                    lemma_num_args_monotone(fields@, i as int + 1, fields@.len() as int);
                }
                return None;
            },
        }
        i += 1;
    }
    Some(num_args)
}

proof fn lemma_num_args_monotone(fields: Seq<SizeDescription>, j: int, k: int)
    requires
        0 <= j <= k <= fields.len(),
    ensures
        num_args_prefix(fields, j) <= num_args_prefix(fields, k),
    decreases k - j,
{
    if j < k {
        lemma_num_args_monotone(fields, j, k - 1);
    }
}

/// The byte size of a record, computed field by field: each running size is
/// rounded up to the alignment of the field that follows, and the last one to
/// the record's alignment. `None` where a running size does not fit.
fn record_byte_size_of(fields: &[SizeDescription], alignment: usize) -> (r: Option<usize>)
    requires
        aligned_fields(fields@),
        alignment == record_alignment(fields@),
    ensures
        match r {
            Some(b) => b == record_byte_size(fields@),
            None => record_byte_size(fields@) > usize::MAX,
        },
{
    let n = fields.len();
    let mut byte_size: usize = 0;
    let mut i: usize = 0;
    proof {
        lemma_record_bounds(fields@, 0);
        lemma_round_up(0, alignment as int);
        if n > 0 {
            assert(fields@[0].alignment > 0);
            lemma_round_up(0, fields@[0].alignment as int);
        }
    }
    while i < n
        invariant
            n == fields@.len(),
            i <= n,
            aligned_fields(fields@),
            alignment == record_alignment(fields@),
            alignment >= 1,
            i < n ==> byte_size == field_start(fields@, i as int),
            i == n ==> byte_size == record_byte_size(fields@),
        decreases n - i,
    {
        proof {
            lemma_field_bounds(fields@, i as int);
            lemma_record_bounds(fields@, i as int + 1);
        }
        let end = match byte_size.checked_add(fields[i].byte_size) {
            Some(e) => e,
            None => {
                return None;
            },
        };
        let next_alignment = if i + 1 < n {
            fields[i + 1].alignment
        } else {
            alignment
        };
        proof {
            if i + 1 < n {
                assert(fields@[i + 1].alignment > 0);
                lemma_field_bounds(fields@, i as int + 1);
                lemma_record_bounds(fields@, i as int + 2);
            }
        }
        byte_size = match checked_next_multiple_of(end, next_alignment) {
            Some(b) => b,
            None => {
                return None;
            },
        };
        i += 1;
    }
    Some(byte_size)
}

/// The smallest multiple of `multiple` that is at least `value`.
pub fn next_multiple_of(value: usize, multiple: usize) -> (r: usize)
    requires
        multiple > 0,
        round_up(value as int, multiple as int) <= usize::MAX,
    ensures
        r == round_up(value as int, multiple as int),
{
    proof {
        lemma_round_up(value as int, multiple as int);
    }
    let rem = value % multiple;
    if rem == 0 {
        value
    } else {
        value + (multiple - rem)
    }
}

/// The layout of a record whose byte size is known to fit.
fn record_layout_of(fields: &[SizeDescription], byte_size: usize) -> (r: Vec<usize>)
    requires
        aligned_fields(fields@),
        byte_size == record_byte_size(fields@),
    ensures
        r@.len() == 2 * fields@.len() + 1,
        forall|k: int| 0 <= k < r@.len() ==> #[trigger] r@[k] == record_layout_entry(fields@, k),
{
    let n = fields.len();
    let mut layout: Vec<usize> = Vec::new();
    let mut end_prev: usize = 0;
    let mut i: usize = 0;
    while i < n
        invariant
            n == fields@.len(),
            i <= n,
            aligned_fields(fields@),
            byte_size == record_byte_size(fields@),
            end_prev == end_of_prefix(fields@, i as int),
            layout@.len() == 2 * i,
            forall|k: int|
                0 <= k < layout@.len() ==> #[trigger] layout@[k] == record_layout_entry(
                    fields@,
                    k,
                ),
        decreases n - i,
    {
        proof {
            lemma_field_bounds(fields@, i as int);
            lemma_record_bounds(fields@, i as int + 1);
        }
        let start = next_multiple_of(end_prev, fields[i].alignment);
        let end = start + fields[i].byte_size;
        let ghost before = layout@;
        layout.push(start);
        layout.push(end);
        proof {
            assert forall|k: int| 0 <= k < layout@.len() implies #[trigger] layout@[k]
                == record_layout_entry(fields@, k) by {
                if k < 2 * i {
                    assert(layout@[k] == before[k]);
                } else if k == 2 * i {
                    assert(k / 2 == i);
                    assert(k % 2 == 0);
                } else {
                    assert(k / 2 == i);
                    assert(k % 2 == 1);
                }
            }
        }
        end_prev = end;
        i += 1;
    }
    let ghost before = layout@;
    layout.push(byte_size);
    proof {
        assert forall|k: int| 0 <= k < layout@.len() implies #[trigger] layout@[k]
            == record_layout_entry(fields@, k) by {
            if k < 2 * n {
                assert(layout@[k] == before[k]);
            }
        }
    }
    layout
}

/// The description of a record with these fields, computed as a record's impl
/// computes it: alignment, byte size, argument count, then the layout.
fn describe_record(fields: &[SizeDescription]) -> (r: Result<SizeDescriptionImpl, LayoutError>)
    requires
        aligned_fields(fields@),
    ensures
        match r {
            Ok(d) => record_fits(fields@) && describes_record(d, fields@),
            Err(e) => !record_fits(fields@) && e == LayoutError::Overflow,
        },
{
    let alignment = record_alignment_of(fields);
    proof {
        lemma_record_bounds(fields@, 0);
    }
    let byte_size = match record_byte_size_of(fields, alignment) {
        Some(b) => b,
        None => {
            return Err(LayoutError::Overflow);
        },
    };
    let num_args = match record_num_args_of(fields) {
        Some(a) => a,
        None => {
            return Err(LayoutError::Overflow);
        },
    };
    let layout = record_layout_of(fields, byte_size);
    Ok(SizeDescriptionImpl { alignment, byte_size, num_args, layout })
}

/// The description of a tuple with elements of these descriptions.
pub fn size_description_tuple(elements: &[SizeDescription]) -> (r: Result<
    SizeDescriptionImpl,
    LayoutError,
>)
    requires
        aligned_fields(elements@),
    ensures
        match r {
            Ok(d) => record_fits(elements@) && describes_record(d, elements@),
            Err(e) => !record_fits(elements@) && e == LayoutError::Overflow,
        },
{
    describe_record(elements)
}

/// The name of the module that holds a struct's impl, for a struct named `name`
/// whose snake-case form is given: `impl_size_description_` and then that form.
pub fn impl_module_name(snake_name: &str) -> (r: String)
    ensures
        r@ == "impl_size_description_"@ + snake_name@,
{
    let prefix = String::from_str("impl_size_description_");
    prefix.concat(snake_name)
}

/// What `heck`'s snake-case conversion gives for a string.
pub uninterp spec fn snake_case(name: Seq<char>) -> Seq<char>;

/// Calls `heck::ToSnakeCase::to_snake_case` on a `str`. The contract claims only that
/// the result is a function of the input's characters, named `snake_case`: the
/// conversion (word boundaries, lower-casing, underscores) is not stated.
#[verifier::external_body]
fn to_snake_case(name: &str) -> (r: String)
    ensures
        r@ == snake_case(name@),
{
    heck::ToSnakeCase::to_snake_case(name)
}

/// The description of a struct named `name` with fields of these descriptions,
/// and the name of the module its impl stands in.
pub fn size_description_struct(name: &str, fields: &[SizeDescription]) -> (r: Result<
    (String, SizeDescriptionImpl),
    LayoutError,
>)
    requires
        aligned_fields(fields@),
    ensures
        match r {
            Ok((module, d)) => {
                &&& module@ == "impl_size_description_"@ + snake_case(name@)
                &&& record_fits(fields@)
                &&& describes_record(d, fields@)
            },
            Err(e) => !record_fits(fields@) && e == LayoutError::Overflow,
        },
{
    let description = match describe_record(fields) {
        Ok(d) => d,
        Err(e) => {
            return Err(e);
        },
    };
    let snake = to_snake_case(name);
    let module = impl_module_name(snake.as_str());
    Ok((module, description))
}

// ---------------------------------------------------------------------------
// Enums
// ---------------------------------------------------------------------------

/// The description of an enum without payloads that has `case_count` cases: one
/// byte, one argument. Refused for more cases than a byte tells apart.
pub fn size_description_enum(case_count: usize) -> (r: Result<SizeDescriptionImpl, LayoutError>)
    ensures
        match r {
            Ok(d) => {
                &&& case_count <= MAX_CASES
                &&& d.num_args == 1
                &&& d.alignment == 1
                &&& d.byte_size == 1
                &&& d.layout@ == seq![0usize, 1usize, 1usize]
            },
            Err(e) => case_count > MAX_CASES && e == LayoutError::TooManyEnumCases,
        },
{
    if case_count > MAX_CASES {
        return Err(LayoutError::TooManyEnumCases);
    }
    let mut layout: Vec<usize> = Vec::new();
    layout.push(0);
    layout.push(1);
    layout.push(1);
    Ok(SizeDescriptionImpl { num_args: 1, alignment: 1, byte_size: 1, layout })
}

// ---------------------------------------------------------------------------
// Variants
// ---------------------------------------------------------------------------

/// The alignment of a variant over its first `k` cases: the largest payload
/// alignment, at least 1. A case without payload is `None`.
pub open spec fn payload_alignment_prefix(cases: Seq<Option<SizeDescription>>, k: int) -> int
    decreases k,
{
    if k <= 0 {
        1
    } else {
        match cases[k - 1] {
            Some(p) => max_int(payload_alignment_prefix(cases, k - 1), p.alignment as int),
            None => payload_alignment_prefix(cases, k - 1),
        }
    }
}

/// The largest payload size over the first `k` cases, 0 where there is none.
pub open spec fn payload_size_prefix(cases: Seq<Option<SizeDescription>>, k: int) -> int
    decreases k,
{
    if k <= 0 {
        0
    } else {
        match cases[k - 1] {
            Some(p) => max_int(payload_size_prefix(cases, k - 1), p.byte_size as int),
            None => payload_size_prefix(cases, k - 1),
        }
    }
}

/// The largest payload argument count over the first `k` cases, 0 where there is none.
pub open spec fn payload_args_prefix(cases: Seq<Option<SizeDescription>>, k: int) -> int
    decreases k,
{
    if k <= 0 {
        0
    } else {
        match cases[k - 1] {
            Some(p) => max_int(payload_args_prefix(cases, k - 1), p.num_args as int),
            None => payload_args_prefix(cases, k - 1),
        }
    }
}

/// A variant's alignment: that of its widest-aligned payload, at least 1.
pub open spec fn variant_alignment(cases: Seq<Option<SizeDescription>>) -> int {
    payload_alignment_prefix(cases, cases.len() as int)
}

/// A variant's byte size: the discriminant padded to the alignment, then room for
/// the largest payload.
pub open spec fn variant_byte_size(cases: Seq<Option<SizeDescription>>) -> int {
    variant_alignment(cases) + payload_size_prefix(cases, cases.len() as int)
}

/// A variant's argument count: the discriminant, then as many as the largest payload takes.
pub open spec fn variant_num_args(cases: Seq<Option<SizeDescription>>) -> int {
    1 + payload_args_prefix(cases, cases.len() as int)
}

/// The variant's byte size and argument count fit in a `usize`.
pub open spec fn variant_fits(cases: Seq<Option<SizeDescription>>) -> bool {
    &&& variant_byte_size(cases) <= usize::MAX
    &&& variant_num_args(cases) <= usize::MAX
}

/// Bounds on the prefix maxima of a variant.
pub proof fn lemma_payload_prefix_bounds(cases: Seq<Option<SizeDescription>>, j: int, k: int)
    requires
        0 <= j <= k <= cases.len(),
    ensures
        1 <= payload_alignment_prefix(cases, j) <= payload_alignment_prefix(cases, k),
        payload_alignment_prefix(cases, k) <= usize::MAX,
        0 <= payload_size_prefix(cases, j) <= payload_size_prefix(cases, k),
        payload_size_prefix(cases, k) <= usize::MAX,
        0 <= payload_args_prefix(cases, j) <= payload_args_prefix(cases, k),
        payload_args_prefix(cases, k) <= usize::MAX,
    decreases k,
{
    if k > 0 {
        if j == k {
            lemma_payload_prefix_bounds(cases, j - 1, k - 1);
        } else {
            lemma_payload_prefix_bounds(cases, j, k - 1);
        }
    }
}

/// The description of a variant whose cases carry these payloads (`None` for a
/// case without one). Refused for more cases than a byte tells apart, and where
/// the size or the argument count does not fit.
pub fn size_description_variant(cases: &[Option<SizeDescription>]) -> (r: Result<
    SizeDescriptionImpl,
    LayoutError,
>)
    ensures
        match r {
            Ok(d) => {
                &&& cases@.len() <= MAX_CASES
                &&& variant_fits(cases@)
                &&& d.alignment == variant_alignment(cases@)
                &&& d.byte_size == variant_byte_size(cases@)
                &&& d.num_args == variant_num_args(cases@)
                &&& d.layout@ == seq![0usize, d.byte_size, d.byte_size]
            },
            Err(e) => {
                ||| cases@.len() > MAX_CASES && e == LayoutError::TooManyVariantCases
                ||| cases@.len() <= MAX_CASES && !variant_fits(cases@) && e == LayoutError::Overflow
            },
        },
{
    let n = cases.len();
    if n > MAX_CASES {
        return Err(LayoutError::TooManyVariantCases);
    }
    let mut alignment: usize = 1;
    let mut i: usize = 0;
    while i < n
        invariant
            n == cases@.len(),
            i <= n,
            alignment == payload_alignment_prefix(cases@, i as int),
        decreases n - i,
    {
        if let Some(payload) = &cases[i] {
            alignment = usize_max(alignment, payload.alignment);
        }
        i += 1;
    }
    let mut payload_size: usize = 0;
    let mut i: usize = 0;
    while i < n
        invariant
            n == cases@.len(),
            i <= n,
            payload_size == payload_size_prefix(cases@, i as int),
        decreases n - i,
    {
        if let Some(payload) = &cases[i] {
            payload_size = usize_max(payload_size, payload.byte_size);
        }
        i += 1;
    }
    let mut payload_args: usize = 0;
    let mut i: usize = 0;
    while i < n
        invariant
            n == cases@.len(),
            i <= n,
            payload_args == payload_args_prefix(cases@, i as int),
        decreases n - i,
    {
        if let Some(payload) = &cases[i] {
            payload_args = usize_max(payload_args, payload.num_args);
        }
        i += 1;
    }
    let byte_size = match alignment.checked_add(payload_size) {
        Some(b) => b,
        None => {
            return Err(LayoutError::Overflow);
        },
    };
    let num_args = match payload_args.checked_add(1) {
        Some(a) => a,
        None => {
            return Err(LayoutError::Overflow);
        },
    };
    let mut layout: Vec<usize> = Vec::new();
    layout.push(0);
    layout.push(byte_size);
    layout.push(byte_size);
    Ok(SizeDescriptionImpl { alignment, byte_size, num_args, layout })
}

} // verus!
