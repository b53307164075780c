//! The health factor of a position: collateral value weighted by the
//! liquidation threshold, relative to the debt value, scaled so that 10_000
//! means the weighted collateral exactly covers the debt.
//!
//! `HF = (collateral_value * liq_threshold_bps / 10_000) * 10_000 / debt_value`
use vstd::prelude::*;
use crate::math::{fits_i128, trunc_div, lemma_trunc_div_range, lemma_trunc_div_monotone};
use vstd::arithmetic::div_mod::lemma_div_is_ordered_by_denominator;

verus! {

/// Health factor scale: 10_000 means "exactly at the liquidation threshold".
pub const HEALTH_FACTOR_SCALE: i128 = 10_000;

/// Sentinel health factor reported for a position without debt.
pub const HEALTH_FACTOR_NO_DEBT: i128 = 100_000_000;

/// Default liquidation threshold in basis points (80%).
pub const DEFAULT_LIQ_THRESHOLD_BPS: i128 = 8_000;

/// Basis-point divisor.
pub const BPS_DIVISOR: i128 = 10_000;

/// Collateral value weighted by the liquidation threshold.
pub open spec fn weighted_collateral(collateral_value: int, liq_threshold_bps: int) -> int {
    trunc_div(collateral_value * liq_threshold_bps, 10_000)
}

/// The health factor of a position with positive debt value.
pub open spec fn health_factor_value(
    collateral_value: int,
    debt_value: int,
    liq_threshold_bps: int,
) -> int {
    trunc_div(weighted_collateral(collateral_value, liq_threshold_bps) * 10_000, debt_value)
}

/// Whether the health-factor formula can be evaluated without overflowing.
pub open spec fn health_factor_computable(collateral_value: int, liq_threshold_bps: int) -> bool {
    fits_i128(collateral_value * liq_threshold_bps) && fits_i128(
        weighted_collateral(collateral_value, liq_threshold_bps) * 10_000,
    )
}

/// Computes the health factor of a position.
///
/// Without debt value the position reports the no-debt sentinel, unless the
/// user is known to hold debt (the debt could not be valued), in which case
/// nothing can be computed. Without an oracle nothing can be computed either.
/// `None` is also returned when an intermediate product overflows.
pub fn reference_health_factor(
    collateral_value: i128,
    debt_value: i128,
    has_debt: bool,
    liq_threshold_bps: i128,
    oracle_present: bool,
) -> (r: Option<i128>)
    ensures
        debt_value <= 0 && has_debt ==> r is None,
        debt_value <= 0 && !has_debt ==> r == Some(HEALTH_FACTOR_NO_DEBT),
        debt_value > 0 && !oracle_present ==> r is None,
        debt_value > 0 && oracle_present ==> (r is Some <==> health_factor_computable(
            collateral_value as int,
            liq_threshold_bps as int,
        )),
        debt_value > 0 && r is Some ==> r->0 == health_factor_value(
            collateral_value as int,
            debt_value as int,
            liq_threshold_bps as int,
        ),
{
    if debt_value <= 0 {
        if has_debt {
            return None;
        }
        return Some(HEALTH_FACTOR_NO_DEBT);
    }
    if !oracle_present {
        return None;
    }
    let product = match collateral_value.checked_mul(liq_threshold_bps) {
        Some(v) => v,
        None => return None,
    };
    proof {
        lemma_trunc_div_range(product as int, 10_000);
    }
    let weighted = match product.checked_div(BPS_DIVISOR) {
        Some(v) => v,
        None => return None,
    };
    let scaled = match weighted.checked_mul(HEALTH_FACTOR_SCALE) {
        Some(v) => v,
        None => return None,
    };
    proof {
        lemma_trunc_div_range(scaled as int, debt_value as int);
    }
    scaled.checked_div(debt_value)
}

/// The health factor is non-decreasing in the collateral value.
pub proof fn lemma_health_factor_monotone_in_collateral(
    cv1: int,
    cv2: int,
    debt_value: int,
    liq_threshold_bps: int,
)
    requires
        0 <= cv1 <= cv2,
        liq_threshold_bps >= 0,
        debt_value > 0,
    ensures
        health_factor_value(cv1, debt_value, liq_threshold_bps) <= health_factor_value(
            cv2,
            debt_value,
            liq_threshold_bps,
        ),
{
    assert(0 <= cv1 * liq_threshold_bps <= cv2 * liq_threshold_bps) by (nonlinear_arith)
        requires 0 <= cv1 <= cv2, liq_threshold_bps >= 0;
    lemma_trunc_div_monotone(cv1 * liq_threshold_bps, cv2 * liq_threshold_bps, 10_000);
    lemma_trunc_div_range(cv1 * liq_threshold_bps, 10_000);
    let w1 = weighted_collateral(cv1, liq_threshold_bps);
    let w2 = weighted_collateral(cv2, liq_threshold_bps);
    assert(0 <= w1 * 10_000 <= w2 * 10_000);
    lemma_trunc_div_monotone(w1 * 10_000, w2 * 10_000, debt_value);
}

/// The health factor is non-increasing in the debt value.
pub proof fn lemma_health_factor_antitone_in_debt(
    collateral_value: int,
    dv1: int,
    dv2: int,
    liq_threshold_bps: int,
)
    requires
        collateral_value >= 0,
        liq_threshold_bps >= 0,
        0 < dv1 <= dv2,
    ensures
        health_factor_value(collateral_value, dv2, liq_threshold_bps) <= health_factor_value(
            collateral_value,
            dv1,
            liq_threshold_bps,
        ),
{
    assert(collateral_value * liq_threshold_bps >= 0) by (nonlinear_arith)
        requires collateral_value >= 0, liq_threshold_bps >= 0;
    lemma_trunc_div_range(collateral_value * liq_threshold_bps, 10_000);
    let w = weighted_collateral(collateral_value, liq_threshold_bps);
    lemma_div_is_ordered_by_denominator(w * 10_000, dv1, dv2);
}

/// A health factor of at least 10_000 means exactly that the weighted
/// collateral covers the debt value.
pub proof fn lemma_health_factor_threshold(
    collateral_value: int,
    debt_value: int,
    liq_threshold_bps: int,
)
    requires
        collateral_value >= 0,
        liq_threshold_bps >= 0,
        debt_value > 0,
    ensures
        health_factor_value(collateral_value, debt_value, liq_threshold_bps) >= 10_000
            <==> weighted_collateral(collateral_value, liq_threshold_bps) >= debt_value,
{
    assert(collateral_value * liq_threshold_bps >= 0) by (nonlinear_arith)
        requires collateral_value >= 0, liq_threshold_bps >= 0;
    lemma_trunc_div_range(collateral_value * liq_threshold_bps, 10_000);
    let w = weighted_collateral(collateral_value, liq_threshold_bps);
    assert((w * 10_000) / debt_value >= 10_000 <==> w >= debt_value) by (nonlinear_arith)
        requires w >= 0, debt_value > 0;
}

/// A position whose weighted collateral equals its debt value exactly has a
/// health factor of exactly 10_000.
pub proof fn lemma_exact_threshold_is_scale(
    collateral_value: int,
    debt_value: int,
    liq_threshold_bps: int,
)
    requires
        collateral_value >= 0,
        liq_threshold_bps >= 0,
        debt_value > 0,
        collateral_value * liq_threshold_bps == debt_value * 10_000,
    ensures
        health_factor_value(collateral_value, debt_value, liq_threshold_bps) == 10_000,
{
    assert((debt_value * 10_000) / 10_000 == debt_value) by (nonlinear_arith);
    assert((debt_value * 10_000) / debt_value == 10_000) by (nonlinear_arith)
        requires debt_value > 0;
}

/// What the health factor of a position with non-negative collateral value
/// and threshold and positive debt value is, whatever its size: with `w` the
/// weighted collateral, the largest integer whose multiple of 10_000 does
/// not exceed `collateral_value * liq_threshold_bps`, the health factor `h`
/// is the largest integer with `h * debt_value <= w * 10_000`. In
/// particular it is not capped: it grows without bound with the collateral.
pub proof fn lemma_health_factor_is_the_scaled_ratio(
    collateral_value: int,
    debt_value: int,
    liq_threshold_bps: int,
)
    requires
        collateral_value >= 0,
        liq_threshold_bps >= 0,
        debt_value > 0,
    ensures
        ({
            let w = weighted_collateral(collateral_value, liq_threshold_bps);
            let h = health_factor_value(collateral_value, debt_value, liq_threshold_bps);
            &&& w * 10_000 <= collateral_value * liq_threshold_bps < (w + 1) * 10_000
            &&& h * debt_value <= w * 10_000 < (h + 1) * debt_value
        }),
{
    assert(collateral_value * liq_threshold_bps >= 0) by (nonlinear_arith)
        requires collateral_value >= 0, liq_threshold_bps >= 0;
    let w = weighted_collateral(collateral_value, liq_threshold_bps);
    crate::math::lemma_div_brackets(collateral_value * liq_threshold_bps, 10_000);
    assert(w >= 0) by {
        lemma_trunc_div_range(collateral_value * liq_threshold_bps, 10_000);
    }
    crate::math::lemma_div_brackets(w * 10_000, debt_value);
}

} // verus!
