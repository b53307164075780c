//! Index-based reward distribution: a global index grows with the emission
//! rate per unit of liquidity, and each user accrues their balance times the
//! index growth since their last update.
//!
//! `global_index += emission_rate * Δt * SCALAR / total_liquidity`
//! `user_accrued += balance * (global_index - user_index) / SCALAR`
use vstd::prelude::*;
use crate::math::{fits_i128, trunc_div, lemma_trunc_div_range};

verus! {

/// Fixed-point scale of the reward index.
pub const SCALAR: i128 = 1_000_000_000;

/// The reward state of one user and the pool.
#[derive(Clone, Copy, Debug)]
pub struct RewardsState {
    pub global_index: i128,
    pub last_update: i128,
    pub emission_rate: i128,
    pub total_liquidity: i128,
    pub user_index: i128,
    pub user_accrued: i128,
}

/// The growth of the global index over `delta` seconds.
pub open spec fn index_growth(s: RewardsState, delta: int) -> int {
    crate::math::trunc_div_any(s.emission_rate * delta * 1_000_000_000, s.total_liquidity as int)
}

/// Whether updating the global index to `now` stays within `i128`.
pub open spec fn global_update_computable(s: RewardsState, now: int) -> bool {
    now == s.last_update || s.total_liquidity == 0 || {
        let delta = now - s.last_update;
        &&& fits_i128(delta)
        &&& fits_i128(s.emission_rate * delta)
        &&& fits_i128(s.emission_rate * delta * 1_000_000_000)
        &&& fits_i128(index_growth(s, delta))
        &&& fits_i128(s.global_index + index_growth(s, delta))
    }
}

/// The state after updating the global index to `now`.
pub open spec fn global_updated(s: RewardsState, now: int) -> RewardsState {
    if now == s.last_update {
        s
    } else if s.total_liquidity == 0 {
        RewardsState { last_update: now as i128, ..s }
    } else {
        RewardsState {
            global_index: (s.global_index + index_growth(s, now - s.last_update)) as i128,
            last_update: now as i128,
            ..s
        }
    }
}

/// What a user with `balance` accrues when their index catches up with `s`.
pub open spec fn user_accrual(s: RewardsState, balance: int) -> int {
    trunc_div(balance * (s.global_index - s.user_index), 1_000_000_000)
}

/// Whether bringing a user with `balance` up to date stays within `i128`,
/// once the global index has been updated.
pub open spec fn user_update_computable(s: RewardsState, balance: int) -> bool {
    &&& fits_i128(s.global_index - s.user_index)
    &&& fits_i128(balance * (s.global_index - s.user_index))
    &&& fits_i128(s.user_accrued + user_accrual(s, balance))
}

/// The state after bringing a user with `balance` up to date at `now`.
pub open spec fn user_updated(s: RewardsState, now: int, balance: int) -> RewardsState {
    let g = global_updated(s, now);
    RewardsState {
        user_accrued: (g.user_accrued + user_accrual(g, balance)) as i128,
        user_index: g.global_index,
        ..g
    }
}

impl RewardsState {
    /// A pool with the given emission rate and liquidity, nothing distributed.
    pub fn new(emission_rate: i128, total_liquidity: i128) -> (s: Self)
        ensures
            s == (RewardsState {
                global_index: 0,
                last_update: 0,
                emission_rate,
                total_liquidity,
                user_index: 0,
                user_accrued: 0,
            }),
    {
        RewardsState {
            global_index: 0,
            last_update: 0,
            emission_rate,
            total_liquidity,
            user_index: 0,
            user_accrued: 0,
        }
    }

    /// Updates the global index to `now`. A repeated timestamp changes
    /// nothing; with no liquidity only the timestamp moves.
    pub fn update_global(&mut self, now: i128)
        requires
            global_update_computable(*old(self), now as int),
        ensures
            *final(self) == global_updated(*old(self), now as int),
    {
        if now == self.last_update {
            return;
        }
        if self.total_liquidity == 0 {
            self.last_update = now;
            return;
        }
        let delta = now - self.last_update;
        proof {
            assert(fits_i128(self.emission_rate * delta * 1_000_000_000));
        }
        let product = self.emission_rate * delta * SCALAR;
        let growth = match product.checked_div(self.total_liquidity) {
            Some(g) => g,
            // The requires keeps the quotient representable, so this arm is never taken.
            None => 0,
        };
        self.global_index = self.global_index + growth;
        self.last_update = now;
    }

    /// Brings a user holding `balance` up to date at `now`: the global index
    /// is updated, the user accrues their share of its growth since their
    /// last update, and their index catches up.
    pub fn update_user(&mut self, now: i128, balance: i128)
        requires
            global_update_computable(*old(self), now as int),
            user_update_computable(global_updated(*old(self), now as int), balance as int),
        ensures
            *final(self) == user_updated(*old(self), now as int, balance as int),
    {
        self.update_global(now);
        let delta = self.global_index - self.user_index;
        self.user_accrued = self.user_accrued + (balance * delta) / SCALAR;
        self.user_index = self.global_index;
    }

    /// Pays out everything accrued and resets the accrual to zero.
    pub fn claim(&mut self) -> (rewards: i128)
        ensures
            rewards == old(self).user_accrued,
            *final(self) == (RewardsState { user_accrued: 0, ..*old(self) }),
    {
        let rewards = self.user_accrued;
        self.user_accrued = 0;
        rewards
    }
}

/// With a non-negative emission rate and positive liquidity, moving time
/// forward never lowers the global index.
pub proof fn lemma_global_index_non_decreasing(s: RewardsState, now: int)
    requires
        now >= s.last_update,
        s.emission_rate >= 0,
        s.total_liquidity > 0,
        global_update_computable(s, now),
    ensures
        global_updated(s, now).global_index >= s.global_index,
{
    if now != s.last_update {
        let delta = now - s.last_update;
        assert(s.emission_rate * delta * 1_000_000_000 >= 0) by (nonlinear_arith)
            requires s.emission_rate >= 0, delta >= 0;
        lemma_trunc_div_range(s.emission_rate * delta * 1_000_000_000, s.total_liquidity as int);
    }
}

/// Without liquidity the global index never moves.
pub proof fn lemma_zero_liquidity_keeps_index(s: RewardsState, now: int)
    requires
        s.total_liquidity == 0,
    ensures
        global_updated(s, now).global_index == s.global_index,
{
}

/// Without emission the global index never moves.
pub proof fn lemma_zero_emission_keeps_index(s: RewardsState, now: int)
    requires
        s.emission_rate == 0,
        global_update_computable(s, now),
    ensures
        global_updated(s, now).global_index == s.global_index,
{
    if now != s.last_update && s.total_liquidity != 0 {
        let delta = now - s.last_update;
        assert(s.emission_rate * delta * 1_000_000_000 == 0) by (nonlinear_arith)
            requires s.emission_rate == 0;
    }
}

/// Updating twice at the same timestamp is the same as updating once.
pub proof fn lemma_update_is_idempotent(s: RewardsState, now: int)
    requires
        fits_i128(now),
    ensures
        global_updated(global_updated(s, now), now) == global_updated(s, now),
{
}

/// A user with a non-negative balance, whose index is behind the global
/// index, accrues a non-negative amount.
pub proof fn lemma_user_accrual_non_negative(s: RewardsState, balance: int)
    requires
        balance >= 0,
        s.global_index >= s.user_index,
    ensures
        user_accrual(s, balance) >= 0,
{
    assert(balance * (s.global_index - s.user_index) >= 0) by (nonlinear_arith)
        requires balance >= 0, s.global_index >= s.user_index;
    lemma_trunc_div_range(balance * (s.global_index - s.user_index), 1_000_000_000);
}

/// Every update to a new time records that time, with or without
/// liquidity; emission rate, liquidity and the user's state are untouched,
/// and while there is no liquidity the index does not move. So time that
/// passes without liquidity is never paid out later.
pub proof fn lemma_update_records_the_time(s: RewardsState, now: int)
    requires
        fits_i128(now),
        now != s.last_update,
    ensures
        global_updated(s, now).last_update == now,
        global_updated(s, now).emission_rate == s.emission_rate,
        global_updated(s, now).total_liquidity == s.total_liquidity,
        global_updated(s, now).user_index == s.user_index,
        global_updated(s, now).user_accrued == s.user_accrued,
        s.total_liquidity == 0 ==> global_updated(s, now).global_index == s.global_index,
{
}

/// With liquidity, the index grows by the emission since the last update
/// per unit of liquidity: for a non-negative emission over a forward step,
/// the growth `g` is the largest integer with
/// `g * total_liquidity <= emission_rate * elapsed * SCALAR` (for an update
/// that stays within `i128`).
pub proof fn lemma_index_growth_per_liquidity(s: RewardsState, now: int)
    requires
        s.total_liquidity > 0,
        s.emission_rate >= 0,
        now > s.last_update,
        global_update_computable(s, now),
    ensures
        ({
            let g = global_updated(s, now).global_index - s.global_index;
            let e = s.emission_rate * (now - s.last_update) * 1_000_000_000;
            g * s.total_liquidity <= e < (g + 1) * s.total_liquidity
        }),
{
    let e = s.emission_rate * (now - s.last_update) * 1_000_000_000;
    assert(e >= 0) by (nonlinear_arith)
        requires s.emission_rate >= 0, now > s.last_update, e == s.emission_rate * (now - s.last_update) * 1_000_000_000;
    crate::math::lemma_div_brackets(e, s.total_liquidity as int);
    assert(index_growth(s, now - s.last_update) == e / (s.total_liquidity as int));
}

/// For a non-negative balance and an index that has not fallen behind the
/// user's, the accrual `a` is the largest integer with
/// `a * SCALAR <= balance * (global_index - user_index)`.
pub proof fn lemma_accrual_is_balance_times_index_growth(s: RewardsState, balance: int)
    requires
        balance >= 0,
        s.global_index >= s.user_index,
    ensures
        user_accrual(s, balance) * 1_000_000_000 <= balance * (s.global_index - s.user_index) < (
        user_accrual(s, balance) + 1) * 1_000_000_000,
{
    assert(balance * (s.global_index - s.user_index) >= 0) by (nonlinear_arith)
        requires balance >= 0, s.global_index >= s.user_index;
    crate::math::lemma_div_brackets(balance * (s.global_index - s.user_index), 1_000_000_000);
}

} // verus!
