//! StellarLend lending protocol logic: interest, collateral, health factor and
//! liquidation formulas, accounting, deposit, withdrawal and reward state
//! machines, debt tokens, collateral rebalancing, protocol invariants and the
//! state-exploration test harness built on them.

pub mod accounting;
pub mod address;
pub mod collateral;
pub mod contract;
pub mod debt_token;
pub mod deposit;
pub mod explorer;
pub mod health_factor;
pub mod interest;
pub mod invariant_test_suite;
pub mod invariants;
pub mod liquidation;
pub mod math;
pub mod rebalancing;
pub mod rewards;
pub mod state_machine;
pub mod text;
pub mod withdraw;
