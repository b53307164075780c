use stellarlend::address::AccountId;
use stellarlend::rebalancing::{
    estimate_rebalancing_gas_cost, PositionSummary, RebalancingError, RebalancingState,
};

const ADMIN: &str = "GBRPYHIL2CI3FNQ4BXLFMNDLFJUNPU2HY3ZMFSHONUCEOASW7QC7OX2H";
const USER: &str = "GCEZWKCA5VLDNRLN3RPRJMRZOX3Z6G5CHCGSNFHEYVXM3XOJMDS674JZ";
const OTHER: &str = "GDQNY3PBOJOKYZSRMK2S7LHHGWZIUISD4QORETLMXEWXBI7KFZZMKTL3";

/// The ledger time of a fresh test ledger.
const GENESIS: u64 = 0;

/// A later ledger time.
const NOW: u64 = 1_700_000_000;

fn addr(key: &str) -> AccountId {
    AccountId::new(key)
}

/// A position below the 1.2 target, cheap to rebalance.
fn unhealthy() -> PositionSummary {
    PositionSummary { total_collateral_value: 1_000_000, total_debt_value: 500_000, health_factor: 11_000 }
}

/// A position inside the 1.2–2.5 target range.
fn healthy() -> PositionSummary {
    PositionSummary { total_collateral_value: 2_000_000, total_debt_value: 1_000_000, health_factor: 20_000 }
}

fn configure(state: &mut RebalancingState, user: &AccountId, max_gas: i128, cooldown: u64) {
    state
        .configure_rebalancing(user, 12000, 25000, max_gas, true, 1000000, 500, cooldown)
        .unwrap();
}

#[test]
fn test_configure_rebalancing_success() {
    let mut state = RebalancingState::new();
    let user = addr(USER);
    let result = state.configure_rebalancing(&user, 12000, 25000, 1000000, true, 1000000, 500, 3600);
    assert!(result.is_ok());

    let config = state.get_rebalancing_config(&user);
    assert_eq!(config.target_health_factor_min, 12000);
    assert_eq!(config.target_health_factor_max, 25000);
    assert_eq!(config.max_gas_cost, 1000000);
    assert!(config.auto_rebalance_enabled);
    assert_eq!(config.min_swap_size, 1000000);
    assert_eq!(config.max_slippage_bps, 500);
    assert_eq!(config.rebalance_cooldown, 3600);
}

#[test]
fn test_configure_rebalancing_invalid_config() {
    let mut state = RebalancingState::new();
    let result = state.configure_rebalancing(&addr(USER), 25000, 12000, 1000000, true, 1000000, 500, 3600);
    assert!(result.is_err());
    assert_eq!(result.unwrap_err(), RebalancingError::InvalidConfig);
}

#[test]
fn test_configure_rebalancing_invalid_gas_cost() {
    let mut state = RebalancingState::new();
    let result = state.configure_rebalancing(&addr(USER), 12000, 25000, -1000, true, 1000000, 500, 3600);
    assert!(result.is_err());
    assert_eq!(result.unwrap_err(), RebalancingError::InvalidConfig);
}

#[test]
fn test_execute_rebalancing_already_healthy() {
    let mut state = RebalancingState::new();
    let user = addr(USER);
    configure(&mut state, &user, 1000000, 3600);

    // A fresh ledger: time 0, the user never rebalanced.
    let result = state.execute_rebalancing(&user, GENESIS, Some(healthy()));
    assert!(result.is_err());
    assert_eq!(result.unwrap_err(), RebalancingError::AlreadyHealthy);
}

#[test]
fn test_execute_rebalancing_cooldown_active() {
    let mut state = RebalancingState::new();
    let user = addr(USER);
    configure(&mut state, &user, 1000000, 10);

    // First call on a fresh ledger (time 0) succeeds: no rebalance recorded yet.
    state.execute_rebalancing(&user, GENESIS, Some(unhealthy())).unwrap();

    let result = state.execute_rebalancing(&user, GENESIS, Some(unhealthy()));
    assert!(result.is_err());
    assert_eq!(result.unwrap_err(), RebalancingError::CooldownActive);
    assert!(state.execute_rebalancing(&user, GENESIS + 10, Some(unhealthy())).is_ok());
}

#[test]
fn test_set_emergency_stop_success() {
    let mut state = RebalancingState::new();
    let result = state.set_emergency_stop(&Some(addr(ADMIN)), &addr(ADMIN), true);
    assert!(result.is_ok());
    assert!(state.is_emergency_stop_active());
}

#[test]
fn test_set_emergency_stop_unauthorized() {
    let mut state = RebalancingState::new();
    let result = state.set_emergency_stop(&Some(addr(ADMIN)), &addr(OTHER), true);
    assert!(result.is_err());
    assert_eq!(result.unwrap_err(), RebalancingError::Unauthorized);
    assert!(!state.is_emergency_stop_active());
}

#[test]
fn test_set_rebalancing_pause_success() {
    let mut state = RebalancingState::new();
    let result = state.set_rebalancing_pause(&Some(addr(ADMIN)), &addr(ADMIN), true);
    assert!(result.is_ok());
    assert!(state.is_rebalancing_paused());
}

#[test]
fn test_get_rebalancing_config_default() {
    let state = RebalancingState::new();
    let config = state.get_rebalancing_config(&addr(USER));
    assert_eq!(config.target_health_factor_min, 15000);
    assert_eq!(config.target_health_factor_max, 25000);
    assert_eq!(config.max_gas_cost, 1000000);
    assert!(!config.auto_rebalance_enabled);
    assert_eq!(config.min_swap_size, 1000000);
    assert_eq!(config.max_slippage_bps, 500);
    assert_eq!(config.rebalance_cooldown, 3600);
}

#[test]
fn test_rebalancing_gas_cost_estimation() {
    let mut state = RebalancingState::new();
    let user = addr(USER);
    configure(&mut state, &user, 500000, 3600);
    let config = state.get_rebalancing_config(&user);
    assert_eq!(config.max_gas_cost, 500000);
}

#[test]
fn gas_estimate_formula() {
    let summary = PositionSummary { total_collateral_value: 2_500_999, total_debt_value: -1_999, health_factor: 0 };
    // 100_000 + 2_500 + (-1): division truncates toward zero.
    assert_eq!(estimate_rebalancing_gas_cost(&summary), 102_499);
}

#[test]
fn successful_rebalance_returns_the_swap_and_records_the_time() {
    let mut state = RebalancingState::new();
    let user = addr(USER);
    configure(&mut state, &user, 1000000, 3600);
    let swap = state.execute_rebalancing(&user, NOW, Some(unhealthy())).unwrap();
    assert!(swap.from_asset.is_none());
    assert!(swap.to_asset.is_none());
    assert_eq!(swap.amount, 1_000_000);
    assert_eq!(swap.expected_amount, 950_000);
    assert_eq!(swap.estimated_gas, 500_000);
    assert_eq!(state.get_rebalancing_config(&user).last_rebalance_time, NOW);
    // An over-collateralised position is rebalanced the same way.
    let high = PositionSummary { total_collateral_value: 1_000, total_debt_value: 0, health_factor: 90_000 };
    assert!(state.execute_rebalancing(&user, NOW + 3600, Some(high)).is_ok());
}

#[test]
fn rebalancing_refusals_in_order() {
    let mut state = RebalancingState::new();
    let user = addr(USER);
    // Not enabled by default.
    assert_eq!(
        state.execute_rebalancing(&user, NOW, Some(unhealthy())).unwrap_err(),
        RebalancingError::InvalidConfig
    );
    configure(&mut state, &user, 1000000, 3600);
    assert_eq!(state.execute_rebalancing(&user, NOW, None).unwrap_err(), RebalancingError::Undercollateralized);
    let costly = PositionSummary { total_collateral_value: 2_000_000_000, total_debt_value: 0, health_factor: 11_000 };
    assert_eq!(
        state.execute_rebalancing(&user, NOW, Some(costly)).unwrap_err(),
        RebalancingError::GasCostTooHigh
    );
    state.configure_rebalancing(&user, 12000, 25000, 1000000, true, 2_000_000, 500, 3600).unwrap();
    assert_eq!(
        state.execute_rebalancing(&user, NOW, Some(unhealthy())).unwrap_err(),
        RebalancingError::SwapTooSmall
    );
    state.set_rebalancing_pause(&Some(addr(ADMIN)), &addr(ADMIN), true).unwrap();
    assert_eq!(
        state.execute_rebalancing(&user, NOW, Some(unhealthy())).unwrap_err(),
        RebalancingError::InvalidConfig
    );
}

#[test]
fn emergency_stop_refuses_rebalancing() {
    let mut state = RebalancingState::new();
    let user = addr(USER);
    configure(&mut state, &user, 1000000, 3600);
    state.set_emergency_stop(&Some(addr(ADMIN)), &addr(ADMIN), true).unwrap();
    assert_eq!(
        state.execute_rebalancing(&user, NOW, Some(unhealthy())).unwrap_err(),
        RebalancingError::InvalidConfig
    );
}

#[test]
fn slippage_above_the_tolerance_is_refused() {
    let mut state = RebalancingState::new();
    let user = addr(USER);
    // The planned swap sends 1_000_000 and expects 950_000 back: 5% slippage.
    state.configure_rebalancing(&user, 12000, 25000, 1000000, true, 1000000, 100, 3600).unwrap();
    assert_eq!(
        state.execute_rebalancing(&user, NOW, Some(unhealthy())).unwrap_err(),
        RebalancingError::SlippageTooHigh
    );
    assert_eq!(state.get_rebalancing_config(&user).last_rebalance_time, 0);
    assert!(!state.is_rebalance_recorded(&user));
    state.configure_rebalancing(&user, 12000, 25000, 1000000, true, 1000000, 500, 3600).unwrap();
    assert!(state.execute_rebalancing(&user, NOW, Some(unhealthy())).is_ok());
    assert!(state.is_rebalance_recorded(&user));
}

#[test]
fn first_rebalance_ignores_the_cooldown() {
    let mut state = RebalancingState::new();
    let user = addr(USER);
    configure(&mut state, &user, 1000000, 3600);
    assert!(state.execute_rebalancing(&user, 5, Some(unhealthy())).is_ok());
    assert_eq!(
        state.execute_rebalancing(&user, 3604, Some(unhealthy())).unwrap_err(),
        RebalancingError::CooldownActive
    );
}
