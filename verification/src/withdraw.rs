//! Withdrawals of collateral, which must leave enough collateral to cover
//! any outstanding debt at the 150% minimum ratio.
use vstd::prelude::*;
use crate::math::fits_i128;
use crate::collateral::min_collateral;

verus! {

/// Minimum collateral ratio in basis points (150%).
const MIN_COLLATERAL_RATIO_BPS: i128 = 15_000;

/// Basis-point divisor.
const BPS_DIVISOR: i128 = 10_000;

/// One user's collateral and debt, and the pool total.
#[derive(Clone, Copy, Debug)]
pub struct WithdrawState {
    pub user_collateral: i128,
    pub total_deposits: i128,
    pub outstanding_debt: i128,
    pub min_withdraw: i128,
}

/// Errors of a withdrawal.
#[derive(Debug, PartialEq, Eq, Structural, Clone, Copy)]
pub enum WithdrawError {
    InvalidAmount,
    InsufficientCollateral,
    InsufficientCollateralRatio,
    Overflow,
}

/// The state after withdrawing `amount`, or the error that refuses it. The
/// pool total drops by the amount, or to zero if that subtraction overflows.
pub open spec fn withdraw_outcome(s: WithdrawState, amount: int) -> Result<WithdrawState, WithdrawError> {
    if amount <= 0 || amount < s.min_withdraw {
        Err(WithdrawError::InvalidAmount)
    } else if amount > s.user_collateral {
        Err(WithdrawError::InsufficientCollateral)
    } else if !fits_i128(s.user_collateral - amount) {
        Err(WithdrawError::Overflow)
    } else if s.outstanding_debt > 0 && !fits_i128(s.outstanding_debt * 15_000) {
        Err(WithdrawError::Overflow)
    } else if s.outstanding_debt > 0 && s.user_collateral - amount < min_collateral(
        s.outstanding_debt as int,
    ) {
        Err(WithdrawError::InsufficientCollateralRatio)
    } else {
        Ok(
            WithdrawState {
                user_collateral: (s.user_collateral - amount) as i128,
                total_deposits: if fits_i128(s.total_deposits - amount) {
                    (s.total_deposits - amount) as i128
                } else {
                    0
                },
                ..s
            },
        )
    }
}

impl WithdrawState {
    /// A position with the given collateral, pool total, debt and minimum
    /// withdrawal.
    pub fn new(collateral: i128, total: i128, debt: i128, min: i128) -> (s: Self)
        ensures
            s == (WithdrawState {
                user_collateral: collateral,
                total_deposits: total,
                outstanding_debt: debt,
                min_withdraw: min,
            }),
    {
        WithdrawState {
            user_collateral: collateral,
            total_deposits: total,
            outstanding_debt: debt,
            min_withdraw: min,
        }
    }

    /// Withdraws `amount` of collateral: refused if not positive, below the
    /// minimum, above the balance, or if it would leave outstanding debt
    /// under-collateralised; a refused withdrawal changes nothing.
    pub fn apply_withdraw(&mut self, amount: i128) -> (r: Result<(), WithdrawError>)
        ensures
            match withdraw_outcome(*old(self), amount as int) {
                Ok(s) => r is Ok && *final(self) == s,
                Err(e) => r == Err::<(), _>(e) && *final(self) == *old(self),
            },
    {
        if amount <= 0 || amount < self.min_withdraw {
            return Err(WithdrawError::InvalidAmount);
        }
        if amount > self.user_collateral {
            return Err(WithdrawError::InsufficientCollateral);
        }
        let remaining = match self.user_collateral.checked_sub(amount) {
            Some(v) => v,
            None => return Err(WithdrawError::Overflow),
        };
        if self.outstanding_debt > 0 {
            let scaled = match self.outstanding_debt.checked_mul(MIN_COLLATERAL_RATIO_BPS) {
                Some(v) => v,
                None => return Err(WithdrawError::Overflow),
            };
            let min_collateral = match scaled.checked_div(BPS_DIVISOR) {
                Some(v) => v,
                None => return Err(WithdrawError::Overflow),
            };
            if remaining < min_collateral {
                return Err(WithdrawError::InsufficientCollateralRatio);
            }
        }
        self.user_collateral = remaining;
        self.total_deposits = match self.total_deposits.checked_sub(amount) {
            Some(v) => v,
            None => 0,
        };
        Ok(())
    }
}

/// After a successful withdrawal, any outstanding debt is still covered at
/// the minimum collateral ratio, and the balance fell by exactly the amount.
pub proof fn lemma_withdraw_keeps_ratio(s: WithdrawState, amount: int)
    requires
        withdraw_outcome(s, amount) is Ok,
    ensures
        s.outstanding_debt > 0 ==> withdraw_outcome(s, amount)->Ok_0.user_collateral
            >= min_collateral(s.outstanding_debt as int),
        withdraw_outcome(s, amount)->Ok_0.user_collateral == s.user_collateral - amount,
{
}

/// Without outstanding debt, a withdrawal of a valid amount up to the whole
/// balance always succeeds and lowers the balance by exactly that amount.
pub proof fn lemma_withdraw_without_debt_succeeds(s: WithdrawState, amount: int)
    requires
        s.outstanding_debt <= 0,
        0 < amount <= s.user_collateral,
        amount >= s.min_withdraw,
    ensures
        withdraw_outcome(s, amount) is Ok,
        withdraw_outcome(s, amount)->Ok_0.user_collateral == s.user_collateral - amount,
{
}

} // verus!
