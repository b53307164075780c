//! Debt accounting for one borrower against a protocol-wide debt ceiling:
//! borrowing adds principal, repaying pays accrued interest first and then
//! principal.
use vstd::prelude::*;
use crate::math::fits_i128;

verus! {

/// The debt book of one borrower.
#[derive(Clone, Copy, Debug)]
pub struct AccountingState {
    pub total_debt: i128,
    pub debt_ceiling: i128,
    pub user_principal: i128,
    pub user_interest: i128,
}

/// Errors of the debt book.
#[derive(Debug, PartialEq, Eq, Structural, Clone, Copy)]
pub enum AccountingError {
    DebtCeilingReached,
    Overflow,
    RepayAmountTooHigh,
    InvalidAmount,
}

/// The book after borrowing `amount`, or the error that refuses the borrow.
pub open spec fn borrow_outcome(s: AccountingState, amount: int) -> Result<
    AccountingState,
    AccountingError,
> {
    if amount <= 0 {
        Err(AccountingError::InvalidAmount)
    } else if !fits_i128(s.total_debt + amount) {
        Err(AccountingError::Overflow)
    } else if s.total_debt + amount > s.debt_ceiling {
        Err(AccountingError::DebtCeilingReached)
    } else if !fits_i128(s.user_principal + amount) {
        Err(AccountingError::Overflow)
    } else {
        Ok(
            AccountingState {
                total_debt: (s.total_debt + amount) as i128,
                user_principal: (s.user_principal + amount) as i128,
                ..s
            },
        )
    }
}

/// The part of a repayment that goes to accrued interest.
pub open spec fn interest_portion(s: AccountingState, amount: int) -> int {
    if amount >= s.user_interest {
        s.user_interest as int
    } else {
        amount
    }
}

/// The book after repaying `amount`, or the error that refuses the repayment.
pub open spec fn repay_outcome(s: AccountingState, amount: int) -> Result<
    AccountingState,
    AccountingError,
> {
    let paid_interest = interest_portion(s, amount);
    let principal_part = amount - paid_interest;
    if amount <= 0 {
        Err(AccountingError::InvalidAmount)
    } else if principal_part > 0 && principal_part > s.user_principal {
        Err(AccountingError::RepayAmountTooHigh)
    } else if principal_part > 0 && !fits_i128(s.total_debt - principal_part) {
        Err(AccountingError::Overflow)
    } else {
        Ok(
            AccountingState {
                user_interest: (s.user_interest - paid_interest) as i128,
                user_principal: (s.user_principal - principal_part) as i128,
                total_debt: (s.total_debt - principal_part) as i128,
                ..s
            },
        )
    }
}

/// Whether repaying `amount` can be computed without overflow: paying off
/// the interest first must leave a representable remainder.
pub open spec fn repay_computable(s: AccountingState, amount: int) -> bool {
    amount <= 0 || amount < s.user_interest || fits_i128(amount - s.user_interest)
}

/// The debt book of a single borrower: the total debt is their principal.
pub open spec fn single_borrower_book(s: AccountingState) -> bool {
    &&& s.total_debt == s.user_principal
    &&& s.user_principal >= 0
    &&& s.user_interest >= 0
}

impl AccountingState {
    /// An empty book with the given debt ceiling.
    pub fn new(ceiling: i128) -> (s: Self)
        ensures
            s == (AccountingState {
                total_debt: 0,
                debt_ceiling: ceiling,
                user_principal: 0,
                user_interest: 0,
            }),
    {
        AccountingState { total_debt: 0, debt_ceiling: ceiling, user_principal: 0, user_interest: 0 }
    }

    /// Borrows `amount`: refused unless positive and within the ceiling; on
    /// success both the total debt and the borrower's principal grow by it.
    pub fn apply_borrow(&mut self, amount: i128) -> (r: Result<(), AccountingError>)
        ensures
            match borrow_outcome(*old(self), amount as int) {
                Ok(s) => r is Ok && *final(self) == s,
                Err(e) => r == Err::<(), _>(e) && *final(self) == *old(self),
            },
    {
        if amount <= 0 {
            return Err(AccountingError::InvalidAmount);
        }
        let new_total = match self.total_debt.checked_add(amount) {
            Some(v) => v,
            None => return Err(AccountingError::Overflow),
        };
        if new_total > self.debt_ceiling {
            return Err(AccountingError::DebtCeilingReached);
        }
        let new_user = match self.user_principal.checked_add(amount) {
            Some(v) => v,
            None => return Err(AccountingError::Overflow),
        };
        self.total_debt = new_total;
        self.user_principal = new_user;
        Ok(())
    }

    /// Repays `amount`: accrued interest is paid first, the rest reduces the
    /// principal and the total debt. Repaying more principal than is owed is
    /// refused, and a refused repayment leaves the book unchanged.
    pub fn apply_repay(&mut self, amount: i128) -> (r: Result<(), AccountingError>)
        requires
            repay_computable(*old(self), amount as int),
        ensures
            match repay_outcome(*old(self), amount as int) {
                Ok(s) => r is Ok && *final(self) == s,
                Err(e) => r == Err::<(), _>(e) && *final(self) == *old(self),
            },
    {
        if amount <= 0 {
            return Err(AccountingError::InvalidAmount);
        }
        let mut remaining = amount;
        let new_interest;
        if remaining >= self.user_interest {
            remaining = remaining - self.user_interest;
            new_interest = 0;
        } else {
            new_interest = self.user_interest - remaining;
            remaining = 0;
        }
        if remaining > 0 {
            if remaining > self.user_principal {
                return Err(AccountingError::RepayAmountTooHigh);
            }
            let new_total = match self.total_debt.checked_sub(remaining) {
                Some(v) => v,
                None => return Err(AccountingError::Overflow),
            };
            self.user_principal = self.user_principal - remaining;
            self.total_debt = new_total;
        }
        self.user_interest = new_interest;
        Ok(())
    }
}

/// A successful borrow never takes the total debt above the ceiling, and
/// raises it by exactly the amount borrowed.
pub proof fn lemma_borrow_respects_ceiling(s: AccountingState, amount: int)
    requires
        borrow_outcome(s, amount) is Ok,
    ensures
        borrow_outcome(s, amount)->Ok_0.total_debt <= s.debt_ceiling,
        borrow_outcome(s, amount)->Ok_0.total_debt == s.total_debt + amount,
{
}

/// Repaying changes the total debt by the principal portion only.
pub proof fn lemma_repay_reduces_debt_by_principal_portion(s: AccountingState, amount: int)
    requires
        repay_outcome(s, amount) is Ok,
    ensures
        repay_outcome(s, amount)->Ok_0.total_debt == s.total_debt - (amount - interest_portion(
            s,
            amount,
        )),
{
}

/// Borrowing and then repaying the same amount, with no interest accrued and
/// no negative principal, restores the book exactly.
pub proof fn lemma_borrow_then_full_repay_is_identity(s: AccountingState, amount: int)
    requires
        s.user_interest == 0,
        s.user_principal >= 0,
        borrow_outcome(s, amount) is Ok,
    ensures
        repay_outcome(borrow_outcome(s, amount)->Ok_0, amount) == Ok::<_, AccountingError>(s),
{
    let t = borrow_outcome(s, amount)->Ok_0;
    assert(interest_portion(t, amount) == 0);
}

/// Every successful borrow or repayment keeps a single borrower's book
/// consistent: the total debt equals their principal, and neither the
/// principal nor the accrued interest goes negative.
pub proof fn lemma_book_stays_consistent(s: AccountingState, amount: int)
    requires
        single_borrower_book(s),
    ensures
        borrow_outcome(s, amount) is Ok ==> single_borrower_book(borrow_outcome(s, amount)->Ok_0),
        repay_outcome(s, amount) is Ok ==> single_borrower_book(repay_outcome(s, amount)->Ok_0),
{
}

} // verus!
