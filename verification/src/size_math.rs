use vstd::prelude::*;

verus! {

/// The larger of two integers.
pub open spec fn max_int(a: int, b: int) -> int {
    if a < b {
        b
    } else {
        a
    }
}

/// The smallest multiple of `m` that is at least `x` (for `x >= 0` and `m > 0`).
pub open spec fn round_up(x: int, m: int) -> int {
    if x % m == 0 {
        x
    } else {
        x + (m - x % m)
    }
}

/// `round_up(x, m)` is a multiple of `m`, no smaller than `x`, and less than `m` above it.
pub proof fn lemma_round_up(x: int, m: int)
    requires
        0 <= x,
        0 < m,
    ensures
        x <= round_up(x, m) < x + m,
        round_up(x, m) % m == 0,
        x % m == 0 ==> round_up(x, m) == x,
        round_up(0, m) == 0,
{
    vstd::arithmetic::div_mod::lemma_fundamental_div_mod(x, m);
    vstd::arithmetic::div_mod::lemma_mod_pos_bound(x, m);
    let q = x / m;
    if x % m != 0 {
        assert((q + 1) * m == m * q + m) by (nonlinear_arith);
        vstd::arithmetic::div_mod::lemma_mod_multiples_basic(q + 1, m);
        assert(round_up(x, m) == (q + 1) * m);
    }
    assert(0int % m == 0) by {
        vstd::arithmetic::div_mod::lemma_small_mod(0nat, m as nat);
    }
}

/// The larger of two sizes.
pub fn usize_max(a: usize, b: usize) -> (r: usize)
    ensures
        r == max_int(a as int, b as int),
{
    if a < b {
        b
    } else {
        a
    }
}

/// The smallest multiple of `multiple` that is at least `value`, or `None` where that
/// multiple does not fit in a `usize`.
pub fn checked_next_multiple_of(value: usize, multiple: usize) -> (r: Option<usize>)
    requires
        multiple > 0,
    ensures
        match r {
            Some(v) => v == round_up(value as int, multiple as int),
            None => round_up(value as int, multiple as int) > usize::MAX,
        },
{
    proof {
        lemma_round_up(value as int, multiple as int);
    }
    let rem = value % multiple;
    if rem == 0 {
        Some(value)
    } else {
        value.checked_add(multiple - rem)
    }
}

} // verus!
