//! The minimum collateral ratio check applied when borrowing: collateral must
//! cover 150% of the borrowed amount, the requirement rounded toward zero.
use vstd::prelude::*;
use crate::math::{fits_i128, trunc_div, lemma_trunc_div_range};

verus! {

/// Minimum collateral ratio in basis points (150%).
pub const COLLATERAL_RATIO_MIN: i128 = 15_000;

/// Basis-point divisor.
pub const BPS_DIVISOR: i128 = 10_000;

/// Errors returned by collateral-ratio validation.
#[derive(Debug, PartialEq, Eq, Structural)]
pub enum CollateralError {
    /// Collateral is below the required minimum ratio.
    InsufficientCollateral,
    /// Arithmetic overflow occurred during validation.
    Overflow,
    /// Amount is zero or invalid.
    InvalidAmount,
}

/// The least collateral accepted for `borrow`: `borrow * 15_000 / 10_000`,
/// rounded toward zero.
pub open spec fn min_collateral(borrow: int) -> int {
    trunc_div(borrow * 15_000, 10_000)
}

/// Checks that `collateral` covers `borrow` at the minimum ratio.
///
/// A zero borrow is always accepted; a borrow whose requirement overflows is
/// refused with `Overflow`; otherwise the check accepts exactly the collateral
/// amounts at or above `min_collateral(borrow)`.
pub fn reference_validate_collateral_ratio(collateral: i128, borrow: i128) -> (r: Result<
    (),
    CollateralError,
>)
    ensures
        borrow == 0 ==> r is Ok,
        borrow != 0 && !fits_i128(borrow * 15_000) ==> r == Err::<(), _>(CollateralError::Overflow),
        borrow != 0 && fits_i128(borrow * 15_000) ==> (r is Ok <==> collateral >= min_collateral(
            borrow as int,
        )),
        borrow != 0 && fits_i128(borrow * 15_000) && r is Err ==> r == Err::<(), _>(
            CollateralError::InsufficientCollateral,
        ),
{
    if borrow == 0 {
        return Ok(());
    }
    let scaled = match borrow.checked_mul(COLLATERAL_RATIO_MIN) {
        Some(v) => v,
        None => return Err(CollateralError::Overflow),
    };
    proof {
        lemma_trunc_div_range(scaled as int, 10_000);
    }
    let min_collateral = match scaled.checked_div(BPS_DIVISOR) {
        Some(v) => v,
        None => return Err(CollateralError::InvalidAmount),
    };
    if collateral < min_collateral {
        Err(CollateralError::InsufficientCollateral)
    } else {
        Ok(())
    }
}

/// Collateral worth at least 150% of a positive borrow, measured exactly
/// (`collateral * 10_000 >= borrow * 15_000`), always meets the requirement.
pub proof fn lemma_full_ratio_is_sufficient(collateral: int, borrow: int)
    requires
        borrow > 0,
        collateral * 10_000 >= borrow * 15_000,
    ensures
        collateral >= min_collateral(borrow),
{
    assert((borrow * 15_000) / 10_000 <= collateral) by (nonlinear_arith)
        requires collateral * 10_000 >= borrow * 15_000, borrow > 0;
}

/// The requirement is monotone: more collateral never turns an accepted
/// position into a refused one.
pub proof fn lemma_more_collateral_still_sufficient(c1: int, c2: int, borrow: int)
    requires
        c1 >= min_collateral(borrow),
        c2 >= c1,
    ensures
        c2 >= min_collateral(borrow),
{
}

/// The requirement grows with the borrowed amount.
pub proof fn lemma_requirement_monotone_in_borrow(b1: int, b2: int)
    requires
        0 <= b1 <= b2,
    ensures
        0 <= min_collateral(b1) <= min_collateral(b2),
{
    assert(0 <= b1 * 15_000 <= b2 * 15_000) by (nonlinear_arith)
        requires 0 <= b1 <= b2;
    crate::math::lemma_trunc_div_monotone(b1 * 15_000, b2 * 15_000, 10_000);
    lemma_trunc_div_range(b1 * 15_000, 10_000);
}

/// Within the safe domain `0 <= borrow <= i128::MAX / COLLATERAL_RATIO_MIN`
/// the requirement is computed without overflow, so the check only ever
/// accepts or reports insufficient collateral.
pub proof fn lemma_no_overflow_in_safe_domain(borrow: int)
    requires
        0 <= borrow <= i128::MAX / 15_000,
    ensures
        fits_i128(borrow * 15_000),
{
    assert(borrow * 15_000 <= (i128::MAX / 15_000) * 15_000) by (nonlinear_arith)
        requires 0 <= borrow <= i128::MAX / 15_000;
}

/// For a non-negative borrow, the required collateral `m` is the largest
/// integer with `m * 10_000 <= borrow * 15_000`: 150% of the borrow,
/// rounded down.
pub proof fn lemma_requirement_is_150_percent(borrow: int)
    requires
        borrow >= 0,
    ensures
        min_collateral(borrow) * 10_000 <= borrow * 15_000 < (min_collateral(borrow) + 1) * 10_000,
{
    crate::math::lemma_div_brackets(borrow * 15_000, 10_000);
}

} // verus!
