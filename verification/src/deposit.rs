//! Deposits into the pool, subject to a minimum size and a total cap.
use vstd::prelude::*;
use crate::math::fits_i128;

verus! {

/// One depositor's balance and the pool totals.
#[derive(Clone, Copy, Debug)]
pub struct DepositState {
    pub user_balance: i128,
    pub total_deposits: i128,
    pub deposit_cap: i128,
    pub min_deposit: i128,
}

/// Errors of a deposit.
#[derive(Debug, PartialEq, Eq, Structural, Clone, Copy)]
pub enum DepositError {
    InvalidAmount,
    ExceedsDepositCap,
    Overflow,
}

/// The state after depositing `amount`, or the error that refuses it.
pub open spec fn deposit_outcome(s: DepositState, amount: int) -> Result<DepositState, DepositError> {
    if amount <= 0 || amount < s.min_deposit {
        Err(DepositError::InvalidAmount)
    } else if !fits_i128(s.total_deposits + amount) {
        Err(DepositError::Overflow)
    } else if s.total_deposits + amount > s.deposit_cap {
        Err(DepositError::ExceedsDepositCap)
    } else if !fits_i128(s.user_balance + amount) {
        Err(DepositError::Overflow)
    } else {
        Ok(
            DepositState {
                user_balance: (s.user_balance + amount) as i128,
                total_deposits: (s.total_deposits + amount) as i128,
                ..s
            },
        )
    }
}

impl DepositState {
    /// An empty pool with the given cap and minimum deposit.
    pub fn new(cap: i128, min: i128) -> (s: Self)
        ensures
            s == (DepositState { user_balance: 0, total_deposits: 0, deposit_cap: cap, min_deposit: min }),
    {
        DepositState { user_balance: 0, total_deposits: 0, deposit_cap: cap, min_deposit: min }
    }

    /// Deposits `amount`: refused if not positive, below the minimum, or
    /// past the cap; on success the balance and the total grow by it.
    pub fn apply_deposit(&mut self, amount: i128) -> (r: Result<(), DepositError>)
        ensures
            match deposit_outcome(*old(self), amount as int) {
                Ok(s) => r is Ok && *final(self) == s,
                Err(e) => r == Err::<(), _>(e) && *final(self) == *old(self),
            },
    {
        if amount <= 0 || amount < self.min_deposit {
            return Err(DepositError::InvalidAmount);
        }
        let new_total = match self.total_deposits.checked_add(amount) {
            Some(v) => v,
            None => return Err(DepositError::Overflow),
        };
        if new_total > self.deposit_cap {
            return Err(DepositError::ExceedsDepositCap);
        }
        let new_user = match self.user_balance.checked_add(amount) {
            Some(v) => v,
            None => return Err(DepositError::Overflow),
        };
        self.total_deposits = new_total;
        self.user_balance = new_user;
        Ok(())
    }
}

/// The pool total never exceeds the cap after a successful deposit.
pub proof fn lemma_deposit_respects_cap(s: DepositState, amount: int)
    requires
        deposit_outcome(s, amount) is Ok,
    ensures
        deposit_outcome(s, amount)->Ok_0.total_deposits <= s.deposit_cap,
{
}

/// Two successful deposits add up: the balance and the total grow by their
/// sum.
pub proof fn lemma_sequential_deposits_accumulate(s: DepositState, a: int, b: int)
    requires
        deposit_outcome(s, a) is Ok,
        deposit_outcome(deposit_outcome(s, a)->Ok_0, b) is Ok,
    ensures
        deposit_outcome(deposit_outcome(s, a)->Ok_0, b)->Ok_0.user_balance == s.user_balance + a
            + b,
        deposit_outcome(deposit_outcome(s, a)->Ok_0, b)->Ok_0.total_deposits == s.total_deposits
            + a + b,
{
}

/// In a consistent pool (`0 <= user_balance <= total_deposits`), a valid
/// deposit that keeps the total within the cap always succeeds: it never
/// overflows.
pub proof fn lemma_deposit_within_cap_succeeds(s: DepositState, amount: int)
    requires
        0 <= s.user_balance <= s.total_deposits,
        amount > 0,
        amount >= s.min_deposit,
        s.total_deposits + amount <= s.deposit_cap,
    ensures
        deposit_outcome(s, amount) is Ok,
{
}

} // verus!
