//! How much of a position's debt a liquidator may repay at once: the close
//! factor's share of the total debt, and only while the position is
//! undercollateralised.
//!
//! `max_liquidatable = total_debt * close_factor_bps / 10_000` if `HF < 10_000`,
//! else `0`.
use vstd::prelude::*;
use crate::math::{fits_i128, trunc_div, lemma_trunc_div_range, lemma_trunc_div_monotone};
use crate::health_factor::{health_factor_computable, health_factor_value};

verus! {

/// Health factor scale.
const HEALTH_FACTOR_SCALE: i128 = 10_000;

/// Default close factor in basis points (50%).
pub const DEFAULT_CLOSE_FACTOR_BPS: i128 = 5_000;

/// Basis-point divisor.
const BPS_DIVISOR: i128 = 10_000;

/// The health factor as the liquidation check sees it: a position without
/// debt value is treated as maximally healthy.
pub open spec fn liquidation_health_factor(
    collateral_value: int,
    debt_value: int,
    liq_threshold_bps: int,
    oracle_present: bool,
) -> Option<int> {
    if debt_value <= 0 {
        Some(i128::MAX as int)
    } else if !oracle_present {
        None
    } else if !health_factor_computable(collateral_value, liq_threshold_bps) {
        None
    } else {
        Some(health_factor_value(collateral_value, debt_value, liq_threshold_bps))
    }
}

/// The largest debt amount that may be liquidated.
pub open spec fn max_liquidatable(
    total_debt: int,
    collateral_value: int,
    debt_value: int,
    close_factor_bps: int,
    liq_threshold_bps: int,
    oracle_present: bool,
) -> int {
    if total_debt <= 0 {
        0
    } else {
        match liquidation_health_factor(
            collateral_value,
            debt_value,
            liq_threshold_bps,
            oracle_present,
        ) {
            None => 0,
            Some(h) => if h == 0 || h >= 10_000 {
                0
            } else if fits_i128(total_debt * close_factor_bps) {
                trunc_div(total_debt * close_factor_bps, 10_000)
            } else {
                0
            },
        }
    }
}

fn local_health_factor(
    collateral_value: i128,
    debt_value: i128,
    liq_threshold_bps: i128,
    oracle_present: bool,
) -> (r: Option<i128>)
    ensures
        r matches Some(h) ==> liquidation_health_factor(
            collateral_value as int,
            debt_value as int,
            liq_threshold_bps as int,
            oracle_present,
        ) == Some(h as int),
        r is None ==> liquidation_health_factor(
            collateral_value as int,
            debt_value as int,
            liq_threshold_bps as int,
            oracle_present,
        ) is None,
{
    if debt_value <= 0 {
        return Some(i128::MAX);
    }
    if !oracle_present {
        return None;
    }
    let product = match collateral_value.checked_mul(liq_threshold_bps) {
        Some(v) => v,
        None => return None,
    };
    proof {
        lemma_trunc_div_range(product as int, 10_000);
    }
    let weighted = match product.checked_div(BPS_DIVISOR) {
        Some(v) => v,
        None => return None,
    };
    let scaled = match weighted.checked_mul(HEALTH_FACTOR_SCALE) {
        Some(v) => v,
        None => return None,
    };
    proof {
        lemma_trunc_div_range(scaled as int, debt_value as int);
    }
    scaled.checked_div(debt_value)
}

/// The largest debt amount a liquidator may repay on a position: zero for a
/// position without debt, one that cannot be priced, one with a zero health
/// factor or a healthy one; otherwise the close factor's share of the total
/// debt (zero if that product overflows).
pub fn reference_max_liquidatable(
    total_debt: i128,
    collateral_value: i128,
    debt_value: i128,
    close_factor_bps: i128,
    liq_threshold_bps: i128,
    oracle_present: bool,
) -> (r: i128)
    ensures
        r == max_liquidatable(
            total_debt as int,
            collateral_value as int,
            debt_value as int,
            close_factor_bps as int,
            liq_threshold_bps as int,
            oracle_present,
        ),
{
    if total_debt <= 0 {
        return 0;
    }
    let hf = local_health_factor(collateral_value, debt_value, liq_threshold_bps, oracle_present);
    match hf {
        None => 0,
        Some(h) => {
            if h == 0 || h >= HEALTH_FACTOR_SCALE {
                0
            } else {
                match total_debt.checked_mul(close_factor_bps) {
                    Some(v) => v / BPS_DIVISOR,
                    None => 0,
                }
            }
        },
    }
}

/// With a close factor between 0% and 100%, the liquidatable amount is
/// never negative and never exceeds the total debt.
pub proof fn lemma_liquidatable_within_total_debt(
    total_debt: int,
    collateral_value: int,
    debt_value: int,
    close_factor_bps: int,
    liq_threshold_bps: int,
    oracle_present: bool,
)
    requires
        0 <= close_factor_bps <= 10_000,
    ensures
        0 <= max_liquidatable(
            total_debt,
            collateral_value,
            debt_value,
            close_factor_bps,
            liq_threshold_bps,
            oracle_present,
        ) <= if total_debt > 0 { total_debt } else { 0 },
{
    if total_debt > 0 {
        assert(0 <= total_debt * close_factor_bps <= total_debt * 10_000) by (nonlinear_arith)
            requires total_debt > 0, 0 <= close_factor_bps <= 10_000;
        lemma_trunc_div_monotone(total_debt * close_factor_bps, total_debt * 10_000, 10_000);
        lemma_trunc_div_range(total_debt * close_factor_bps, 10_000);
        assert((total_debt * 10_000) / 10_000 == total_debt) by (nonlinear_arith);
    }
}

/// A position whose health factor is at or above the scale cannot be
/// liquidated at all.
pub proof fn lemma_healthy_position_not_liquidatable(
    total_debt: int,
    collateral_value: int,
    debt_value: int,
    close_factor_bps: int,
    liq_threshold_bps: int,
)
    requires
        debt_value > 0,
        health_factor_computable(collateral_value, liq_threshold_bps),
        health_factor_value(collateral_value, debt_value, liq_threshold_bps) >= 10_000,
    ensures
        max_liquidatable(
            total_debt,
            collateral_value,
            debt_value,
            close_factor_bps,
            liq_threshold_bps,
            true,
        ) == 0,
{
}

/// An undercollateralised position that can still be priced (a health
/// factor strictly between 0 and 10_000) may be liquidated up to the close
/// factor's share of its total debt: the result `m` is the largest integer
/// with `m * 10_000 <= total_debt * close_factor_bps`, unless that product
/// overflows, in which case nothing is liquidatable. So the amount is
/// positive exactly when the product reaches 10_000.
pub proof fn lemma_undercollateralised_position_is_liquidatable(
    total_debt: int,
    collateral_value: int,
    debt_value: int,
    close_factor_bps: int,
    liq_threshold_bps: int,
)
    requires
        total_debt > 0,
        close_factor_bps >= 0,
        debt_value > 0,
        health_factor_computable(collateral_value, liq_threshold_bps),
        0 < health_factor_value(collateral_value, debt_value, liq_threshold_bps) < 10_000,
    ensures
        ({
            let m = max_liquidatable(
                total_debt,
                collateral_value,
                debt_value,
                close_factor_bps,
                liq_threshold_bps,
                true,
            );
            &&& fits_i128(total_debt * close_factor_bps) ==> m * 10_000 <= total_debt * close_factor_bps
                < (m + 1) * 10_000
            &&& fits_i128(total_debt * close_factor_bps) ==> (m > 0 <==> total_debt * close_factor_bps
                >= 10_000)
            &&& !fits_i128(total_debt * close_factor_bps) ==> m == 0
        }),
{
    assert(total_debt * close_factor_bps >= 0) by (nonlinear_arith)
        requires total_debt > 0, close_factor_bps >= 0;
    crate::math::lemma_div_brackets(total_debt * close_factor_bps, 10_000);
}

} // verus!
