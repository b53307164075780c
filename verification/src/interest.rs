//! Simple interest on a borrowed principal: a flat annual rate of 5%, accrued
//! per second and rounded toward zero.
//!
//! `interest = P * r * Δt / (10_000 * Y)` with `r = 500` basis points and
//! `Y = 31_536_000` seconds.
use vstd::prelude::*;
use crate::math::{fits_i128, trunc_div};
use vstd::arithmetic::div_mod::{lemma_div_is_ordered, lemma_div_pos_is_pos};
use vstd::arithmetic::mul::{lemma_mul_inequality, lemma_mul_nonnegative};

verus! {

/// Annual interest rate in basis points (5%).
pub const INTEREST_RATE_PER_YEAR: i128 = 500;

/// Seconds in a non-leap year.
pub const SECONDS_PER_YEAR: i128 = 31_536_000;

/// Basis-point divisor.
pub const BPS_DIVISOR: i128 = 10_000;

/// Largest principal whose product with the annual rate fits in an `i128`.
pub const MAX_SAFE_PRINCIPAL: i128 = 340_282_366_920_938_463_463_374_607_431_768_211;

/// The interest owed on `principal` after `elapsed` seconds.
pub open spec fn interest_amount(principal: int, elapsed: int) -> int {
    trunc_div(principal * 500 * elapsed, 10_000int * 31_536_000)
}

/// Whether the intermediate products of the interest formula stay in range.
pub open spec fn interest_computable(principal: int, elapsed: int) -> bool {
    fits_i128(principal * 500) && fits_i128(principal * 500 * elapsed)
}

/// The interest accrued on `principal` over `elapsed_secs` seconds, or `None`
/// when an intermediate product overflows `i128`.
pub fn reference_interest(principal: i128, elapsed_secs: i128) -> (r: Option<i128>)
    ensures
        principal == 0 || elapsed_secs == 0 ==> r == Some(0i128),
        principal != 0 && elapsed_secs != 0 ==> (r is Some <==> interest_computable(
            principal as int,
            elapsed_secs as int,
        )),
        r matches Some(v) ==> v == interest_amount(principal as int, elapsed_secs as int),
{
    if principal == 0 || elapsed_secs == 0 {
        proof {
            assert(principal * 500 * elapsed_secs == 0) by (nonlinear_arith)
                requires principal == 0 || elapsed_secs == 0;
        }
        return Some(0);
    }
    let pr = match principal.checked_mul(INTEREST_RATE_PER_YEAR) {
        Some(v) => v,
        None => return None,
    };
    let prt = match pr.checked_mul(elapsed_secs) {
        Some(v) => v,
        None => return None,
    };
    let divisor = BPS_DIVISOR * SECONDS_PER_YEAR;
    Some(prt / divisor)
}

/// Interest is never negative when principal and elapsed time are not.
pub proof fn lemma_interest_non_negative(principal: int, elapsed: int)
    requires
        principal >= 0,
        elapsed >= 0,
    ensures
        interest_amount(principal, elapsed) >= 0,
{
    assert(principal * 500 * elapsed >= 0) by (nonlinear_arith)
        requires principal >= 0, elapsed >= 0;
    lemma_div_pos_is_pos(principal * 500 * elapsed, 10_000int * 31_536_000);
}

/// Interest is non-decreasing in the principal.
pub proof fn lemma_interest_monotone_in_principal(p1: int, p2: int, elapsed: int)
    requires
        0 <= p1 <= p2,
        elapsed >= 0,
    ensures
        interest_amount(p1, elapsed) <= interest_amount(p2, elapsed),
{
    assert(p1 * 500 * elapsed <= p2 * 500 * elapsed) by (nonlinear_arith)
        requires 0 <= p1 <= p2, elapsed >= 0;
    assert(p1 * 500 * elapsed >= 0) by (nonlinear_arith)
        requires 0 <= p1, elapsed >= 0;
    lemma_div_is_ordered(p1 * 500 * elapsed, p2 * 500 * elapsed, 10_000int * 31_536_000);
}

/// Interest is non-decreasing in the elapsed time.
pub proof fn lemma_interest_monotone_in_time(principal: int, t1: int, t2: int)
    requires
        principal >= 0,
        0 <= t1 <= t2,
    ensures
        interest_amount(principal, t1) <= interest_amount(principal, t2),
{
    assert(principal * 500 * t1 <= principal * 500 * t2) by (nonlinear_arith)
        requires principal >= 0, 0 <= t1 <= t2;
    assert(principal * 500 * t1 >= 0) by (nonlinear_arith)
        requires principal >= 0, t1 >= 0;
    lemma_div_is_ordered(principal * 500 * t1, principal * 500 * t2, 10_000int * 31_536_000);
}

/// Over at most one year, interest is at most 5% of the principal (rounded
/// down), and strictly below a positive principal.
pub proof fn lemma_interest_within_a_year_bounded(principal: int, elapsed: int)
    requires
        principal >= 0,
        0 <= elapsed <= 31_536_000,
    ensures
        interest_amount(principal, elapsed) <= principal / 20,
        principal > 0 ==> interest_amount(principal, elapsed) < principal,
{
    let d: int = 10_000int * 31_536_000;
    assert(principal * 500 * elapsed <= principal * 500 * 31_536_000) by (nonlinear_arith)
        requires principal >= 0, 0 <= elapsed <= 31_536_000;
    assert(principal * 500 * elapsed >= 0) by (nonlinear_arith)
        requires principal >= 0, elapsed >= 0;
    lemma_div_is_ordered(principal * 500 * elapsed, principal * 500 * 31_536_000, d);
    assert((principal * 500 * 31_536_000) / d == principal / 20) by (nonlinear_arith)
        requires d == 10_000int * 31_536_000;
}

/// Over at most one year, the interest on any principal up to
/// `MAX_SAFE_PRINCIPAL / SECONDS_PER_YEAR` is computed without overflow.
pub proof fn lemma_no_overflow_on_safe_principal(principal: int, elapsed: int)
    requires
        0 <= principal <= MAX_SAFE_PRINCIPAL / SECONDS_PER_YEAR,
        0 <= elapsed <= SECONDS_PER_YEAR,
    ensures
        interest_computable(principal, elapsed),
{
    let bound: int = MAX_SAFE_PRINCIPAL / SECONDS_PER_YEAR;
    assert(bound * 31_536_000 <= MAX_SAFE_PRINCIPAL);
    assert(principal * 500 * elapsed <= bound * 500 * 31_536_000) by (nonlinear_arith)
        requires 0 <= principal <= bound, 0 <= elapsed <= 31_536_000, bound >= 0;
    assert(principal * 500 <= bound * 500) by (nonlinear_arith)
        requires 0 <= principal <= bound;
    assert(principal * 500 * elapsed >= 0) by (nonlinear_arith)
        requires principal >= 0, elapsed >= 0;
    assert(bound * 500 * 31_536_000 == (bound * 31_536_000) * 500) by (nonlinear_arith);
}

/// For a non-negative principal and elapsed time, the interest `i` is the
/// largest integer with `i * 10_000 * 31_536_000 <= principal * 500 * elapsed`:
/// 5% a year, accrued per second, rounded down.
pub proof fn lemma_interest_is_five_percent_a_year(principal: int, elapsed: int)
    requires
        principal >= 0,
        elapsed >= 0,
    ensures
        ({
            let i = interest_amount(principal, elapsed);
            i * (10_000 * 31_536_000) <= principal * 500 * elapsed < (i + 1) * (10_000 * 31_536_000)
        }),
{
    assert(principal * 500 * elapsed >= 0) by (nonlinear_arith)
        requires principal >= 0, elapsed >= 0;
    crate::math::lemma_div_brackets(principal * 500 * elapsed, 10_000int * 31_536_000);
}

} // verus!
