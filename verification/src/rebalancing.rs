//! Automated collateral rebalancing: each user sets a target health-factor
//! range and limits (gas, swap size, slippage, cooldown), and a rebalancing
//! request swaps collateral when the position's health factor has left the
//! range.
//!
//! `RebalancingState` holds the module's persistent state. The acting
//! user's authorization is checked by the host; the ledger time, the stored
//! admin and the user's position summary are read by the caller and passed
//! in.
use vstd::prelude::*;
use crate::address::{AccountId, opt_view};
use crate::math::fits_i128;

verus! {

/// A user's rebalancing configuration
#[derive(Debug, Clone, Copy, PartialEq, Eq, Structural)]
pub struct RebalancingConfig {
    /// Minimum target health factor (scaled by 10000, e.g., 12000 = 1.2)
    pub target_health_factor_min: i128,
    /// Maximum target health factor (scaled by 10000, e.g., 20000 = 2.0)
    pub target_health_factor_max: i128,
    /// Maximum gas cost user is willing to pay for rebalancing
    pub max_gas_cost: i128,
    /// Whether automated rebalancing is enabled
    pub auto_rebalance_enabled: bool,
    /// Minimum swap size to prevent dust transactions
    pub min_swap_size: i128,
    /// Maximum slippage tolerance (in basis points, e.g., 500 = 5%)
    pub max_slippage_bps: i128,
    /// Last rebalancing timestamp (to prevent rapid rebalancing)
    pub last_rebalance_time: u64,
    /// Cooldown period between rebalancings (in seconds)
    pub rebalance_cooldown: u64,
}

/// Errors that can occur during rebalancing operations
#[derive(Debug, Clone, Copy, PartialEq, Eq, Structural)]
pub enum RebalancingError {
    /// Caller is not authorized to rebalance user's position
    Unauthorized,
    /// Rebalancing configuration is invalid
    InvalidConfig,
    /// Health factor is already within target range
    AlreadyHealthy,
    /// Gas cost exceeds user's maximum
    GasCostTooHigh,
    /// Slippage exceeds maximum tolerance
    SlippageTooHigh,
    /// Swap amount is below minimum size
    SwapTooSmall,
    /// Rebalancing cooldown period not elapsed
    CooldownActive,
    /// Position is undercollateralized and cannot be rebalanced
    Undercollateralized,
    /// AMM integration failed
    AmmFailed,
    /// Insufficient liquidity for swap
    InsufficientLiquidity,
    /// Arithmetic overflow occurred
    Overflow,
}

/// The totals of a user's position across assets that rebalancing reads.
#[derive(Debug, Clone, Copy, PartialEq, Eq, Structural)]
pub struct PositionSummary {
    pub total_collateral_value: i128,
    pub total_debt_value: i128,
    pub health_factor: i128,
}

/// A collateral swap decision
#[derive(Debug)]
pub struct SwapDecision {
    /// Asset to swap from
    pub from_asset: Option<AccountId>,
    /// Asset to swap to
    pub to_asset: Option<AccountId>,
    /// Amount to swap
    pub amount: i128,
    /// Expected amount to receive
    pub expected_amount: i128,
    /// Estimated gas cost
    pub estimated_gas: i128,
}

/// The configuration of a user who has not set one.
pub open spec fn default_config() -> RebalancingConfig {
    RebalancingConfig {
        target_health_factor_min: 15000,
        target_health_factor_max: 25000,
        max_gas_cost: 1000000,
        auto_rebalance_enabled: false,
        min_swap_size: 1000000,
        max_slippage_bps: 500,
        last_rebalance_time: 0,
        rebalance_cooldown: 3600,
    }
}

/// Whether a configuration request is acceptable: the minimum target at
/// least 1.0, the range non-empty, a non-negative gas limit, a positive
/// minimum swap and a slippage tolerance between 0% and 100%.
pub open spec fn config_valid(
    target_health_factor_min: i128,
    target_health_factor_max: i128,
    max_gas_cost: i128,
    min_swap_size: i128,
    max_slippage_bps: i128,
) -> bool {
    &&& target_health_factor_min >= 10000
    &&& target_health_factor_max >= target_health_factor_min
    &&& max_gas_cost >= 0
    &&& min_swap_size > 0
    &&& 0 <= max_slippage_bps <= 10000
}

/// The estimated gas cost of rebalancing a position: a base cost plus one
/// unit per 1000 of collateral value and of debt value.
pub open spec fn gas_estimate(summary: PositionSummary) -> int {
    100000 + crate::math::trunc_div_signed_1000(summary.total_collateral_value as int)
        + crate::math::trunc_div_signed_1000(summary.total_debt_value as int)
}

/// The swap the optimiser proposes: 1_000_000 units out, 950_000 expected
/// back, 500_000 gas.
pub open spec fn planned_swap_amount() -> int {
    1000000
}

/// The slippage of a swap in basis points: how much less than it sends the
/// swap is expected to return (negative when it is expected to return more).
pub open spec fn slippage_bps(amount: int, expected: int) -> int {
    crate::math::trunc_div_any((amount - expected) * 10000, amount)
}

/// Whether `d` is the swap the optimiser proposes.
pub open spec fn is_planned_swap(d: SwapDecision) -> bool {
    &&& d.from_asset is None
    &&& d.to_asset is None
    &&& d.amount == 1000000
    &&& d.expected_amount == 950000
    &&& d.estimated_gas == 500000
}

/// The rebalancing state of each configured user, and the global switches.
pub struct RebalancingState {
    configs: Vec<(AccountId, RebalancingConfig)>,
    model: Ghost<Map<Seq<char>, RebalancingConfig>>,
    rebalanced_users: Vec<AccountId>,
    rebalanced_model: Ghost<Set<Seq<char>>>,
    emergency_stop: bool,
    paused: bool,
}

/// The table `v` (one entry per user) represents the map `m`.
pub open spec fn config_table_represents(
    v: Seq<(AccountId, RebalancingConfig)>,
    m: Map<Seq<char>, RebalancingConfig>,
) -> bool {
    &&& forall|i: int, j: int| 0 <= i < j < v.len() ==> (#[trigger] v[i]).0@ != (#[trigger] v[j]).0@
    &&& forall|i: int| 0 <= i < v.len() ==> m.contains_key((#[trigger] v[i]).0@)
    &&& forall|i: int| 0 <= i < v.len() ==> m[(#[trigger] v[i]).0@] == v[i].1
    &&& forall|k: Seq<char>| #[trigger] m.contains_key(k) ==> exists|i: int| 0 <= i < v.len() && (#[trigger] v[i]).0@ == k
}

impl RebalancingState {
    /// The stored configurations, by user.
    pub closed spec fn configs(&self) -> Map<Seq<char>, RebalancingConfig> {
        self.model@
    }

    /// The configuration in force for `user`: the stored one, or the default.
    pub open spec fn config_of(&self, user: Seq<char>) -> RebalancingConfig {
        if self.configs().contains_key(user) {
            self.configs()[user]
        } else {
            default_config()
        }
    }

    /// The users for whom a rebalance has been recorded.
    pub closed spec fn recorded(&self) -> Set<Seq<char>> {
        self.rebalanced_model@
    }

    /// Whether the emergency stop is active.
    pub closed spec fn emergency_stopped(&self) -> bool {
        self.emergency_stop
    }

    /// Whether rebalancing is paused.
    pub closed spec fn rebalancing_paused(&self) -> bool {
        self.paused
    }

    /// Consistency of the configuration table.
    pub closed spec fn wf(&self) -> bool {
        &&& config_table_represents(self.configs@, self.model@)
        &&& forall|u: Seq<char>|
            #[trigger] self.rebalanced_model@.contains(u) <==> exists|i: int|
                0 <= i < self.rebalanced_users@.len() && (#[trigger] self.rebalanced_users@[i])@ == u
    }

    /// No configurations stored, neither stopped nor paused.
    pub fn new() -> (s: Self)
        ensures
            s.wf(),
            s.configs() == Map::<Seq<char>, RebalancingConfig>::empty(),
            s.recorded() == Set::<Seq<char>>::empty(),
            !s.emergency_stopped(),
            !s.rebalancing_paused(),
    {
        RebalancingState {
            configs: Vec::new(),
            model: Ghost(Map::empty()),
            rebalanced_users: Vec::new(),
            rebalanced_model: Ghost(Set::empty()),
            emergency_stop: false,
            paused: false,
        }
    }

    /// Whether a rebalance has been recorded for `user`.
    pub fn is_rebalance_recorded(&self, user: &AccountId) -> (r: bool)
        requires
            self.wf(),
        ensures
            r == self.recorded().contains(user@),
    {
        let mut i: usize = 0;
        while i < self.rebalanced_users.len()
            invariant
                self.wf(),
                i <= self.rebalanced_users@.len(),
                forall|j: int| 0 <= j < i ==> (#[trigger] self.rebalanced_users@[j])@ != user@,
            decreases self.rebalanced_users@.len() - i,
        {
            if self.rebalanced_users[i].same(user) {
                proof {
                    assert(self.rebalanced_users@[i as int]@ == user@);
                    assert(self.rebalanced_model@.contains(user@));
                }
                return true;
            }
            i = i + 1;
        }
        proof {
            if self.rebalanced_model@.contains(user@) {
                let j = choose|j: int|
                    0 <= j < self.rebalanced_users@.len() && (#[trigger] self.rebalanced_users@[j])@ == user@;
                assert(self.rebalanced_users@[j]@ != user@);
            }
        }
        false
    }

    fn record_rebalance(&mut self, user: &AccountId)
        requires
            old(self).wf(),
        ensures
            final(self).wf(),
            final(self).recorded() == old(self).recorded().insert(user@),
            final(self).configs() == old(self).configs(),
            final(self).emergency_stopped() == old(self).emergency_stopped(),
            final(self).rebalancing_paused() == old(self).rebalancing_paused(),
    {
        if !self.is_rebalance_recorded(user) {
            let ghost old_users = self.rebalanced_users@;
            self.rebalanced_users.push(user.duplicate());
            proof {
                self.rebalanced_model@ = self.rebalanced_model@.insert(user@);
                let v = self.rebalanced_users@;
                assert forall|u: Seq<char>|
                    #[trigger] self.rebalanced_model@.contains(u) <==> exists|i: int|
                        0 <= i < v.len() && (#[trigger] v[i])@ == u by {
                    if self.rebalanced_model@.contains(u) {
                        if u == user@ {
                            assert(v[old_users.len() as int]@ == u);
                        } else {
                            let i = choose|i: int| 0 <= i < old_users.len() && (#[trigger] old_users[i])@ == u;
                            assert(v[i] == old_users[i]);
                        }
                    }
                    if exists|i: int| 0 <= i < v.len() && (#[trigger] v[i])@ == u {
                        let i = choose|i: int| 0 <= i < v.len() && (#[trigger] v[i])@ == u;
                        if i < old_users.len() {
                            assert(old_users[i] == v[i]);
                        }
                    }
                }
            }
        } else {
            proof {
                assert(self.recorded().insert(user@) =~= self.recorded());
            }
        }
    }

    fn find_config(&self, user: &AccountId) -> (r: Option<usize>)
        requires
            self.wf(),
        ensures
            r matches Some(i) ==> i < self.configs@.len() && self.configs@[i as int].0@ == user@,
            r is None ==> !self.configs().contains_key(user@),
    {
        let mut i: usize = 0;
        while i < self.configs.len()
            invariant
                i <= self.configs@.len(),
                forall|j: int| 0 <= j < i ==> (#[trigger] self.configs@[j]).0@ != user@,
            decreases self.configs@.len() - i,
        {
            if self.configs[i].0.same(user) {
                return Some(i);
            }
            i = i + 1;
        }
        None
    }

    fn store_config(&mut self, user: &AccountId, config: RebalancingConfig)
        requires
            old(self).wf(),
        ensures
            final(self).wf(),
            final(self).configs() == old(self).configs().insert(user@, config),
            final(self).recorded() == old(self).recorded(),
            final(self).emergency_stopped() == old(self).emergency_stopped(),
            final(self).rebalancing_paused() == old(self).rebalancing_paused(),
    {
        let ghost old_table = self.configs@;
        match self.find_config(user) {
            Some(i) => {
                let key = self.configs[i].0.duplicate();
                self.configs.set(i, (key, config));
                proof {
                    self.model@ = self.model@.insert(user@, config);
                    let v = self.configs@;
                    assert(forall|j: int| 0 <= j < v.len() && j != i ==> v[j] == old_table[j]);
                    assert forall|k: Seq<char>| #[trigger] self.model@.contains_key(k) implies exists|j: int|
                        0 <= j < v.len() && (#[trigger] v[j]).0@ == k by {
                        if k == user@ {
                            assert(v[i as int].0@ == k);
                        } else {
                            let j = choose|j: int| 0 <= j < old_table.len() && (#[trigger] old_table[j]).0@ == k;
                            assert(v[j].0@ == k);
                        }
                    }
                }
            },
            None => {
                self.configs.push((user.duplicate(), config));
                proof {
                    self.model@ = self.model@.insert(user@, config);
                    let v = self.configs@;
                    assert(forall|j: int| 0 <= j < old_table.len() ==> v[j] == old_table[j]);
                    assert forall|k: Seq<char>| #[trigger] self.model@.contains_key(k) implies exists|j: int|
                        0 <= j < v.len() && (#[trigger] v[j]).0@ == k by {
                        if k == user@ {
                            assert(v[old_table.len() as int].0@ == k);
                        } else {
                            let j = choose|j: int| 0 <= j < old_table.len() && (#[trigger] old_table[j]).0@ == k;
                            assert(v[j].0@ == k);
                        }
                    }
                }
            },
        }
        proof {
            assert(self.rebalanced_users@ == old(self).rebalanced_users@);
            assert(self.rebalanced_model@ == old(self).rebalanced_model@);
        }
    }
}

/// The swap the optimiser proposes for a position that left its range.
fn calculate_optimal_swap() -> (r: Result<SwapDecision, RebalancingError>)
    ensures
        r is Ok && is_planned_swap(r->Ok_0),
{
    Ok(
        SwapDecision {
            from_asset: None,
            to_asset: None,
            amount: 1000000,
            expected_amount: 950000,
            estimated_gas: 500000,
        },
    )
}

/// Checks a swap against the user's slippage tolerance before it is sent.
fn execute_amm_swap(swap_decision: &SwapDecision, config: &RebalancingConfig) -> (r: Result<
    (),
    RebalancingError,
>)
    requires
        swap_decision.amount > 0,
        fits_i128(swap_decision.amount - swap_decision.expected_amount),
        fits_i128((swap_decision.amount - swap_decision.expected_amount) * 10000),
    ensures
        r is Err <==> slippage_bps(swap_decision.amount as int, swap_decision.expected_amount as int)
            > config.max_slippage_bps,
        r is Err ==> r == Err::<(), _>(RebalancingError::SlippageTooHigh),
{
    let scaled = (swap_decision.amount - swap_decision.expected_amount) * 10000;
    let slippage = scaled / swap_decision.amount;
    proof {
        if scaled < 0 {
            assert(slippage == -((-(scaled as int)) / (swap_decision.amount as int)));
        } else {
            assert(slippage == (scaled as int) / (swap_decision.amount as int));
        }
    }
    if slippage > config.max_slippage_bps {
        return Err(RebalancingError::SlippageTooHigh);
    }
    Ok(())
}

/// The estimated gas cost of rebalancing a position: a base cost of 100_000
/// plus one unit per 1000 of collateral value and of debt value.
pub fn estimate_rebalancing_gas_cost(position_summary: &PositionSummary) -> (g: i128)
    ensures
        g == gas_estimate(*position_summary),
{
    let base_gas: i128 = 100000;
    let collateral_gas = position_summary.total_collateral_value / 1000;
    let debt_gas = position_summary.total_debt_value / 1000;
    proof {
        crate::math::lemma_trunc_div_1000_bound(position_summary.total_collateral_value as int);
        crate::math::lemma_trunc_div_1000_bound(position_summary.total_debt_value as int);
    }
    base_gas + collateral_gas + debt_gas
}

impl RebalancingState {
    /// Sets `user`'s rebalancing configuration, with the last rebalance time
    /// reset to 0 (whether a rebalance was ever recorded is kept). Refused
    /// with `InvalidConfig`, changing nothing, unless the request is
    /// acceptable (see `config_valid`).
    pub fn configure_rebalancing(
        &mut self,
        user: &AccountId,
        target_health_factor_min: i128,
        target_health_factor_max: i128,
        max_gas_cost: i128,
        auto_rebalance_enabled: bool,
        min_swap_size: i128,
        max_slippage_bps: i128,
        rebalance_cooldown: u64,
    ) -> (r: Result<(), RebalancingError>)
        requires
            old(self).wf(),
        ensures
            final(self).wf(),
            !config_valid(
                target_health_factor_min,
                target_health_factor_max,
                max_gas_cost,
                min_swap_size,
                max_slippage_bps,
            ) ==> r == Err::<(), _>(RebalancingError::InvalidConfig) && *final(self) == *old(self),
            config_valid(
                target_health_factor_min,
                target_health_factor_max,
                max_gas_cost,
                min_swap_size,
                max_slippage_bps,
            ) ==> {
                &&& r is Ok
                &&& final(self).configs() == old(self).configs().insert(
                    user@,
                    RebalancingConfig {
                        target_health_factor_min,
                        target_health_factor_max,
                        max_gas_cost,
                        auto_rebalance_enabled,
                        min_swap_size,
                        max_slippage_bps,
                        last_rebalance_time: 0,
                        rebalance_cooldown,
                    },
                )
                &&& final(self).recorded() == old(self).recorded()
                &&& final(self).emergency_stopped() == old(self).emergency_stopped()
                &&& final(self).rebalancing_paused() == old(self).rebalancing_paused()
            },
    {
        if target_health_factor_min < 10000 || target_health_factor_max < target_health_factor_min {
            return Err(RebalancingError::InvalidConfig);
        }
        if max_gas_cost < 0 || min_swap_size <= 0 || max_slippage_bps < 0 || max_slippage_bps > 10000 {
            return Err(RebalancingError::InvalidConfig);
        }
        let config = RebalancingConfig {
            target_health_factor_min,
            target_health_factor_max,
            max_gas_cost,
            auto_rebalance_enabled,
            min_swap_size,
            max_slippage_bps,
            last_rebalance_time: 0,
            rebalance_cooldown,
        };
        self.store_config(user, config);
        Ok(())
    }

    /// The configuration in force for `user`: the stored one, or the default
    /// (health range 1.5–2.5, gas 1_000_000, disabled, minimum swap
    /// 1_000_000, 5% slippage, one-hour cooldown).
    pub fn get_rebalancing_config(&self, user: &AccountId) -> (c: RebalancingConfig)
        requires
            self.wf(),
        ensures
            c == self.config_of(user@),
    {
        match self.find_config(user) {
            Some(i) => self.configs[i].1,
            None => RebalancingConfig {
                target_health_factor_min: 15000,
                target_health_factor_max: 25000,
                max_gas_cost: 1000000,
                auto_rebalance_enabled: false,
                min_swap_size: 1000000,
                max_slippage_bps: 500,
                last_rebalance_time: 0,
                rebalance_cooldown: 3600,
            },
        }
    }

    /// Whether the emergency stop is active.
    pub fn is_emergency_stop_active(&self) -> (r: bool)
        ensures
            r == self.emergency_stopped(),
    {
        self.emergency_stop
    }

    /// Whether rebalancing is paused.
    pub fn is_rebalancing_paused(&self) -> (r: bool)
        ensures
            r == self.rebalancing_paused(),
    {
        self.paused
    }

    /// Why a rebalancing request by `user` at `now` is refused, checked in
    /// this order, or `None` when it goes through. `summary` is the user's
    /// position, `None` when it could not be read.
    pub open spec fn rebalancing_refusal(
        &self,
        user: Seq<char>,
        now: u64,
        summary: Option<PositionSummary>,
    ) -> Option<RebalancingError> {
        let config = self.config_of(user);
        if self.emergency_stopped() || self.rebalancing_paused() || !config.auto_rebalance_enabled {
            Some(RebalancingError::InvalidConfig)
        } else if self.recorded().contains(user) && now < config.last_rebalance_time
            + config.rebalance_cooldown {
            Some(RebalancingError::CooldownActive)
        } else if summary is None {
            Some(RebalancingError::Undercollateralized)
        } else if config.target_health_factor_min <= summary->0.health_factor
            <= config.target_health_factor_max {
            Some(RebalancingError::AlreadyHealthy)
        } else if gas_estimate(summary->0) > config.max_gas_cost {
            Some(RebalancingError::GasCostTooHigh)
        } else if planned_swap_amount() < config.min_swap_size {
            Some(RebalancingError::SwapTooSmall)
        } else if slippage_bps(planned_swap_amount(), 950000) > config.max_slippage_bps {
            Some(RebalancingError::SlippageTooHigh)
        } else {
            None
        }
    }

    /// Rebalances `user`'s collateral at time `now`, given their position
    /// summary (`None` when it could not be read).
    ///
    /// Refused (changing nothing) when stopped, paused or not enabled, within
    /// the cooldown after a recorded rebalance (a user who never rebalanced
    /// is under no cooldown), without a position, when the health factor is already in
    /// the target range, when the gas estimate exceeds the user's limit, when
    /// the proposed swap is below the minimum size or exceeds the slippage
    /// tolerance. Otherwise the proposed swap is returned, to be sent to the
    /// AMM, and the user's last rebalance time becomes `now`.
    pub fn execute_rebalancing(
        &mut self,
        user: &AccountId,
        now: u64,
        position_summary: Option<PositionSummary>,
    ) -> (r: Result<SwapDecision, RebalancingError>)
        requires
            old(self).wf(),
            !old(self).emergency_stopped() && !old(self).rebalancing_paused() && old(self).config_of(
                user@,
            ).auto_rebalance_enabled && old(self).recorded().contains(user@) ==> old(self).config_of(
                user@,
            ).last_rebalance_time + old(self).config_of(user@).rebalance_cooldown <= u64::MAX,
        ensures
            final(self).wf(),
            match old(self).rebalancing_refusal(user@, now, position_summary) {
                Some(e) => r is Err && r->Err_0 == e && *final(self) == *old(self),
                None => {
                    &&& r is Ok && is_planned_swap(r->Ok_0)
                    &&& final(self).configs() == old(self).configs().insert(
                        user@,
                        RebalancingConfig {
                            last_rebalance_time: now,
                            ..old(self).config_of(user@)
                        },
                    )
                    &&& final(self).recorded() == old(self).recorded().insert(user@)
                    &&& final(self).emergency_stopped() == old(self).emergency_stopped()
                    &&& final(self).rebalancing_paused() == old(self).rebalancing_paused()
                },
            },
    {
        if self.is_emergency_stop_active() {
            return Err(RebalancingError::InvalidConfig);
        }
        if self.is_rebalancing_paused() {
            return Err(RebalancingError::InvalidConfig);
        }
        let config = self.get_rebalancing_config(user);
        if !config.auto_rebalance_enabled {
            return Err(RebalancingError::InvalidConfig);
        }
        let current_time = now;
        if self.is_rebalance_recorded(user) && current_time < config.last_rebalance_time
            + config.rebalance_cooldown {
            return Err(RebalancingError::CooldownActive);
        }
        let summary = match position_summary {
            Some(s) => s,
            None => return Err(RebalancingError::Undercollateralized),
        };
        if summary.health_factor >= config.target_health_factor_min && summary.health_factor
            <= config.target_health_factor_max {
            return Err(RebalancingError::AlreadyHealthy);
        }
        if summary.health_factor < config.target_health_factor_min {
            self.execute_collateral_optimization(user, &summary, &config, now)
        } else {
            self.execute_efficiency_optimization(user, &summary, &config, now)
        }
    }

    /// Improves a position whose health factor is below its range by
    /// swapping collateral.
    fn execute_collateral_optimization(
        &mut self,
        user: &AccountId,
        position_summary: &PositionSummary,
        config: &RebalancingConfig,
        now: u64,
    ) -> (r: Result<SwapDecision, RebalancingError>)
        requires
            old(self).wf(),
            *config == old(self).config_of(user@),
        ensures
            final(self).wf(),
            gas_estimate(*position_summary) > config.max_gas_cost ==> r is Err && r->Err_0 == RebalancingError::GasCostTooHigh && *final(self) == *old(self),
            gas_estimate(*position_summary) <= config.max_gas_cost && planned_swap_amount()
                < config.min_swap_size ==> r is Err && r->Err_0 == RebalancingError::SwapTooSmall
                && *final(self) == *old(self),
            gas_estimate(*position_summary) <= config.max_gas_cost && planned_swap_amount()
                >= config.min_swap_size && slippage_bps(planned_swap_amount(), 950000)
                > config.max_slippage_bps ==> r is Err && r->Err_0 == RebalancingError::SlippageTooHigh && *final(self) == *old(self),
            gas_estimate(*position_summary) <= config.max_gas_cost && planned_swap_amount()
                >= config.min_swap_size && slippage_bps(planned_swap_amount(), 950000)
                <= config.max_slippage_bps ==> {
                &&& r is Ok && is_planned_swap(r->Ok_0)
                &&& final(self).configs() == old(self).configs().insert(
                    user@,
                    RebalancingConfig { last_rebalance_time: now, ..*config },
                )
                &&& final(self).recorded() == old(self).recorded().insert(user@)
                &&& final(self).emergency_stopped() == old(self).emergency_stopped()
                &&& final(self).rebalancing_paused() == old(self).rebalancing_paused()
            },
    {
        let estimated_gas = estimate_rebalancing_gas_cost(position_summary);
        if estimated_gas > config.max_gas_cost {
            return Err(RebalancingError::GasCostTooHigh);
        }
        let swap_decision = match calculate_optimal_swap() {
            Ok(d) => d,
            Err(e) => return Err(e),
        };
        if swap_decision.amount < config.min_swap_size {
            return Err(RebalancingError::SwapTooSmall);
        }
        match execute_amm_swap(&swap_decision, config) {
            Ok(()) => {},
            Err(e) => return Err(e),
        }
        self.update_last_rebalance_time(user, now);
        Ok(swap_decision)
    }

    /// Rebalances a position whose health factor is above its range, for
    /// capital efficiency; this proceeds as the collateral optimisation does.
    fn execute_efficiency_optimization(
        &mut self,
        user: &AccountId,
        position_summary: &PositionSummary,
        config: &RebalancingConfig,
        now: u64,
    ) -> (r: Result<SwapDecision, RebalancingError>)
        requires
            old(self).wf(),
            *config == old(self).config_of(user@),
        ensures
            final(self).wf(),
            gas_estimate(*position_summary) > config.max_gas_cost ==> r is Err && r->Err_0 == RebalancingError::GasCostTooHigh && *final(self) == *old(self),
            gas_estimate(*position_summary) <= config.max_gas_cost && planned_swap_amount()
                < config.min_swap_size ==> r is Err && r->Err_0 == RebalancingError::SwapTooSmall
                && *final(self) == *old(self),
            gas_estimate(*position_summary) <= config.max_gas_cost && planned_swap_amount()
                >= config.min_swap_size && slippage_bps(planned_swap_amount(), 950000)
                > config.max_slippage_bps ==> r is Err && r->Err_0 == RebalancingError::SlippageTooHigh && *final(self) == *old(self),
            gas_estimate(*position_summary) <= config.max_gas_cost && planned_swap_amount()
                >= config.min_swap_size && slippage_bps(planned_swap_amount(), 950000)
                <= config.max_slippage_bps ==> {
                &&& r is Ok && is_planned_swap(r->Ok_0)
                &&& final(self).configs() == old(self).configs().insert(
                    user@,
                    RebalancingConfig { last_rebalance_time: now, ..*config },
                )
                &&& final(self).recorded() == old(self).recorded().insert(user@)
                &&& final(self).emergency_stopped() == old(self).emergency_stopped()
                &&& final(self).rebalancing_paused() == old(self).rebalancing_paused()
            },
    {
        self.execute_collateral_optimization(user, position_summary, config, now)
    }

    /// Records `now` as `user`'s last rebalance time.
    fn update_last_rebalance_time(&mut self, user: &AccountId, now: u64)
        requires
            old(self).wf(),
        ensures
            final(self).wf(),
            final(self).configs() == old(self).configs().insert(
                user@,
                RebalancingConfig { last_rebalance_time: now, ..old(self).config_of(user@) },
            ),
            final(self).recorded() == old(self).recorded().insert(user@),
            final(self).emergency_stopped() == old(self).emergency_stopped(),
            final(self).rebalancing_paused() == old(self).rebalancing_paused(),
    {
        let mut config = self.get_rebalancing_config(user);
        config.last_rebalance_time = now;
        self.store_config(user, config);
        self.record_rebalance(user);
    }

    /// Activates or clears the emergency stop. Only the stored admin may do
    /// so; a refused request changes nothing.
    pub fn set_emergency_stop(&mut self, stored_admin: &Option<AccountId>, admin: &AccountId, stopped: bool) -> (r:
        Result<(), RebalancingError>)
        ensures
            opt_view(*stored_admin) != Some(admin@) ==> r == Err::<(), _>(
                RebalancingError::Unauthorized,
            ) && *final(self) == *old(self),
            opt_view(*stored_admin) == Some(admin@) ==> {
                &&& r is Ok
                &&& final(self).emergency_stopped() == stopped
                &&& final(self).rebalancing_paused() == old(self).rebalancing_paused()
                &&& final(self).configs() == old(self).configs()
                &&& final(self).recorded() == old(self).recorded()
                &&& final(self).wf() == old(self).wf()
            },
    {
        let stored = match stored_admin {
            Some(a) => a,
            None => return Err(RebalancingError::Unauthorized),
        };
        if !admin.same(stored) {
            return Err(RebalancingError::Unauthorized);
        }
        self.emergency_stop = stopped;
        proof {
            assert(self.rebalanced_users@ == old(self).rebalanced_users@);
            assert(self.rebalanced_model@ == old(self).rebalanced_model@);
            assert(self.configs@ == old(self).configs@);
        }
        Ok(())
    }

    /// Pauses or resumes rebalancing. Only the stored admin may do so; a
    /// refused request changes nothing.
    pub fn set_rebalancing_pause(&mut self, stored_admin: &Option<AccountId>, admin: &AccountId, paused: bool) -> (r:
        Result<(), RebalancingError>)
        ensures
            opt_view(*stored_admin) != Some(admin@) ==> r == Err::<(), _>(
                RebalancingError::Unauthorized,
            ) && *final(self) == *old(self),
            opt_view(*stored_admin) == Some(admin@) ==> {
                &&& r is Ok
                &&& final(self).rebalancing_paused() == paused
                &&& final(self).emergency_stopped() == old(self).emergency_stopped()
                &&& final(self).configs() == old(self).configs()
                &&& final(self).recorded() == old(self).recorded()
                &&& final(self).wf() == old(self).wf()
            },
    {
        let stored = match stored_admin {
            Some(a) => a,
            None => return Err(RebalancingError::Unauthorized),
        };
        if !admin.same(stored) {
            return Err(RebalancingError::Unauthorized);
        }
        self.paused = paused;
        proof {
            assert(self.rebalanced_users@ == old(self).rebalanced_users@);
            assert(self.rebalanced_model@ == old(self).rebalanced_model@);
            assert(self.configs@ == old(self).configs@);
        }
        Ok(())
    }
}

/// A configuration that was just stored is the one in force for its user.
pub proof fn lemma_configured_is_in_force(
    before: &RebalancingState,
    after: &RebalancingState,
    user: Seq<char>,
    config: RebalancingConfig,
)
    requires
        after.configs() == before.configs().insert(user, config),
    ensures
        after.config_of(user) == config,
{
}

/// After a rebalance at time `now`, any further request by the same user
/// before the cooldown has elapsed is refused with `CooldownActive` (unless
/// an earlier check, stop, pause or disabled configuration, refuses it).
pub proof fn lemma_cooldown_after_rebalance(
    before: &RebalancingState,
    after: &RebalancingState,
    user: Seq<char>,
    now: u64,
    later: u64,
    summary: Option<PositionSummary>,
)
    requires
        after.configs() == before.configs().insert(
            user,
            RebalancingConfig { last_rebalance_time: now, ..before.config_of(user) },
        ),
        later < now + before.config_of(user).rebalance_cooldown,
        after.recorded().contains(user),
        !after.emergency_stopped(),
        !after.rebalancing_paused(),
        before.config_of(user).auto_rebalance_enabled,
    ensures
        after.rebalancing_refusal(user, later, summary) == Some(RebalancingError::CooldownActive),
{
}

/// While the emergency stop or the pause is active, every request is
/// refused.
pub proof fn lemma_stop_refuses_all(
    s: &RebalancingState,
    user: Seq<char>,
    now: u64,
    summary: Option<PositionSummary>,
)
    requires
        s.emergency_stopped() || s.rebalancing_paused(),
    ensures
        s.rebalancing_refusal(user, now, summary) == Some(RebalancingError::InvalidConfig),
{
}

/// A position whose health factor lies inside the user's target range is
/// never rebalanced: the request is refused, and nothing is swapped.
pub proof fn lemma_in_range_never_rebalanced(
    s: &RebalancingState,
    user: Seq<char>,
    now: u64,
    summary: PositionSummary,
)
    requires
        s.config_of(user).target_health_factor_min <= summary.health_factor
            <= s.config_of(user).target_health_factor_max,
    ensures
        s.rebalancing_refusal(user, now, Some(summary)) is Some,
{
}

/// Which configurations are accepted: exactly those with a minimum target
/// of at least 1.0, a non-empty range, a non-negative gas limit, a positive
/// minimum swap, and any slippage tolerance from 0% to 100%
/// (0..=10_000 basis points).
pub proof fn lemma_accepted_configurations(
    target_health_factor_min: i128,
    target_health_factor_max: i128,
    max_gas_cost: i128,
    min_swap_size: i128,
    max_slippage_bps: i128,
)
    ensures
        config_valid(
            target_health_factor_min,
            target_health_factor_max,
            max_gas_cost,
            min_swap_size,
            max_slippage_bps,
        ) <==> (target_health_factor_min >= 10_000 && target_health_factor_max
            >= target_health_factor_min && max_gas_cost >= 0 && min_swap_size > 0 && 0
            <= max_slippage_bps && max_slippage_bps <= 10_000),
{
}

} // verus!
