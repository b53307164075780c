//! Integer arithmetic as the protocol's fixed-point formulas use it.
use vstd::prelude::*;
use vstd::arithmetic::div_mod::{lemma_div_is_ordered, lemma_div_pos_is_pos, lemma_div_decreases};

verus! {

/// Whether an integer is representable as an `i128`.
pub open spec fn fits_i128(x: int) -> bool {
    i128::MIN <= x <= i128::MAX
}

/// Integer division rounding toward zero, as Rust's `/` does (for `b > 0`).
pub open spec fn trunc_div(a: int, b: int) -> int {
    if a >= 0 {
        a / b
    } else {
        -((-a) / b)
    }
}

/// Dividing by a positive divisor rounding toward zero keeps the sign and
/// never grows the magnitude.
pub proof fn lemma_trunc_div_range(a: int, b: int)
    requires
        b >= 1,
    ensures
        a >= 0 ==> 0 <= trunc_div(a, b) <= a,
        a < 0 ==> a <= trunc_div(a, b) <= 0,
        fits_i128(a) ==> fits_i128(trunc_div(a, b)),
{
    if a >= 0 {
        lemma_div_pos_is_pos(a, b);
        if a > 0 && b > 1 {
            lemma_div_decreases(a, b);
        }
        assert(a / b <= a) by (nonlinear_arith)
            requires a >= 0, b >= 1;
    } else {
        lemma_div_pos_is_pos(-a, b);
        assert((-a) / b <= -a) by (nonlinear_arith)
            requires -a >= 0, b >= 1;
    }
}

/// Dividing by a positive divisor preserves order on non-negative numerators.
pub proof fn lemma_trunc_div_monotone(a1: int, a2: int, b: int)
    requires
        0 <= a1 <= a2,
        b >= 1,
    ensures
        trunc_div(a1, b) <= trunc_div(a2, b),
{
    lemma_div_is_ordered(a1, a2, b);
}

/// `x / 1000` rounded toward zero.
pub open spec fn trunc_div_signed_1000(x: int) -> int {
    trunc_div(x, 1000)
}

/// Integer division rounding toward zero, for any non-zero divisor.
pub open spec fn trunc_div_any(a: int, b: int) -> int {
    if b > 0 {
        trunc_div(a, b)
    } else {
        -trunc_div(a, -b)
    }
}

/// A thousandth of an `i128`, rounded toward zero, stays within a thousandth
/// of the `i128` range.
pub proof fn lemma_trunc_div_1000_bound(a: int)
    requires
        fits_i128(a),
    ensures
        -170141183460469231731687303715884106 <= trunc_div(a, 1000)
            <= 170141183460469231731687303715884105,
{
    if a >= 0 {
        lemma_div_is_ordered(a, i128::MAX as int, 1000);
    } else {
        lemma_div_is_ordered(-a, i128::MAX as int + 1, 1000);
    }
}

/// Integer division by a positive divisor brackets the dividend:
/// `(a / b) * b <= a < (a / b + 1) * b`.
pub proof fn lemma_div_brackets(a: int, b: int)
    requires
        b > 0,
    ensures
        (a / b) * b <= a < (a / b + 1) * b,
{
    vstd::arithmetic::div_mod::lemma_fundamental_div_mod(a, b);
    vstd::arithmetic::div_mod::lemma_mod_bound(a, b);
    let q = a / b;
    let r = a % b;
    assert(q * b <= a < (q + 1) * b) by (nonlinear_arith)
        requires a == b * q + r, 0 <= r < b;
}

} // verus!
