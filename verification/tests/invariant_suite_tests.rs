use stellarlend::address::AccountId;
use stellarlend::invariant_test_suite::{
    assert_invariants_pass, get_covered_action_types, summary_recommendations, summary_status,
    InvariantTestConfig, InvariantTestSuite, TestStatus,
};
use stellarlend::invariants::ExemptionFlags;
use stellarlend::state_machine::{ProtocolState, UserState};

const ADMIN: &str = "GBRPYHIL2CI3FNQ4BXLFMNDLFJUNPU2HY3ZMFSHONUCEOASW7QC7OX2H";
const USER: &str = "GCEZWKCA5VLDNRLN3RPRJMRZOX3Z6G5CHCGSNFHEYVXM3XOJMDS674JZ";
const ASSET: &str = "CA3D5KRYM6CB7OWQ6TWYRR3Z4T7GNZLKERYNZGGA5SOAOPIFY6YQGAXE";

fn addr(key: &str) -> AccountId {
    AccountId::new(key)
}

fn fresh_user() -> UserState {
    UserState {
        collateral_balance: 0,
        debt_balance: 0,
        health_factor: 100_000_000,
        collateral_value: 0,
        debt_value: 0,
    }
}

/// The protocol readings of a deployment with an admin and nothing else.
fn readings() -> ProtocolState {
    let mut s = ProtocolState::empty();
    s.admin = Some(addr(ADMIN));
    s
}

#[test]
fn test_invariant_test_suite_creation() {
    let config = InvariantTestConfig::default();
    let suite = InvariantTestSuite::new(config);
    assert_eq!(suite.config().max_depth, 4);
    assert_eq!(suite.config().confidence_threshold, 10000);
}

#[test]
fn test_basic_invariant_checks() {
    let suite = InvariantTestSuite::new(InvariantTestConfig::default());
    // Should pass with no users, on a fresh deployment with no admin stored.
    let fresh = ProtocolState::empty();
    let result = suite.run_basic_invariant_checks(&vec![], false, &fresh, &ProtocolState::empty());
    assert!(result.is_ok());
}

#[test]
fn test_edge_case_testing() {
    let suite = InvariantTestSuite::new(InvariantTestConfig::default());
    let result = suite.run_edge_case_tests(&vec![], false, &None);
    assert_eq!(result.total_executions, 4);
}

#[test]
fn config_defaults() {
    let config = InvariantTestConfig::default();
    assert_eq!(config.min_execution_count, 1000);
    assert!(!config.enable_exhaustive_testing);
    assert!(!config.known_exemptions.rate_reset_in_progress);
}

#[test]
fn basic_checks_collect_user_and_protocol_violations() {
    let mut suite = InvariantTestSuite::new(InvariantTestConfig::default());
    suite.add_user(addr(USER));
    let broken = UserState { health_factor: 5_000, ..fresh_user() };
    let mut after = readings();
    after.total_assets = -1;
    after.admin = None;
    let v = suite
        .run_basic_invariant_checks(&vec![broken], false, &readings(), &after)
        .unwrap_err();
    let ids: Vec<&str> = v.iter().map(|x| x.invariant_id).collect();
    assert_eq!(ids, vec!["INV-001", "INV-004", "INV-008", "INV-010", "INV-014"]);
    assert!(suite
        .run_basic_invariant_checks(&vec![fresh_user()], false, &readings(), &readings())
        .is_ok());
}

#[test]
fn edge_cases_report_each_finding() {
    let mut suite = InvariantTestSuite::new(InvariantTestConfig::default());
    suite.add_user(addr(USER));
    let odd = UserState { collateral_balance: -3, debt_balance: 0, health_factor: 0, collateral_value: 0, debt_value: 0 };
    let out = suite.run_edge_case_tests(&vec![odd], true, &Some(AccountId::zero()));
    assert_eq!(out.total_executions, 4);
    let ids: Vec<&str> = out.violations_found.iter().map(|x| x.invariant_id).collect();
    assert_eq!(ids, vec!["INV-001-EDGE-1", "INV-002-EDGE-1", "INV-007-EDGE-1", "INV-006-EDGE-1"]);
    assert_eq!(out.violations_found[2].detail, format!("user: AccountId({}), collateral: -3, debt: 0", USER));
    assert_eq!(out.violations_found[3].detail, "Admin should be properly configured");
    let calm = suite.run_edge_case_tests(&vec![fresh_user()], false, &Some(addr(ADMIN)));
    assert!(calm.violations_found.is_empty());
}

#[test]
fn exploration_phase_collects_steps_and_kinds() {
    let config = InvariantTestConfig { max_depth: 1, confidence_threshold: 100, ..InvariantTestConfig::default() };
    let mut suite = InvariantTestSuite::new(config);
    suite.add_user(addr(USER));
    suite.add_asset(addr(ASSET));
    let out = suite.run_state_exploration(&ProtocolState::empty());
    assert_eq!(out.total_executions, 12);
    assert_eq!(out.reproduction_steps.len(), 12);
    // Withdrawals from an empty protocol drive the total assets negative.
    assert_eq!(out.violations_found.len(), 3);
    assert_eq!(out.action_types_covered, vec!["Deposit", "Withdraw", "Repay", "AdvanceTime"]);
    assert_eq!(get_covered_action_types(&out.reproduction_steps), out.action_types_covered);
}

#[test]
fn invariants_pass_for_fresh_users() {
    assert!(assert_invariants_pass(&vec![fresh_user(), fresh_user()], false).is_ok());
    let bad = UserState { debt_balance: -1, ..fresh_user() };
    assert_eq!(assert_invariants_pass(&vec![fresh_user(), bad], false).unwrap_err().len(), 1);
}

#[test]
fn summary_verdicts() {
    assert_eq!(summary_status(0, true), TestStatus::Passed);
    assert_eq!(summary_status(2, true), TestStatus::Failed);
    assert_eq!(summary_status(0, false), TestStatus::Inconclusive);
    assert!(summary_recommendations(true, true, 0).is_empty());
    assert_eq!(
        summary_recommendations(false, false, 1),
        vec![
            "Consider increasing execution count or test depth".to_string(),
            "Increase test coverage by adding more users/assets".to_string(),
            "Fix invariant violations before proceeding".to_string(),
        ]
    );
}

#[test]
fn basic_checks_flag_an_admin_appearing_and_respect_the_oracle_fallback() {
    let config = InvariantTestConfig {
        known_exemptions: ExemptionFlags { oracle_fallback_active: true, ..ExemptionFlags::default() },
        ..InvariantTestConfig::default()
    };
    let suite = InvariantTestSuite::new(config);
    let mut after = readings();
    after.interest_index = -5;
    let v = suite.run_basic_invariant_checks(&vec![], false, &ProtocolState::empty(), &after).unwrap_err();
    let ids: Vec<&str> = v.iter().map(|x| x.invariant_id).collect();
    assert_eq!(ids, vec!["INV-014"]);
    assert_eq!(v[0].detail, format!("before: None, after: {}", ADMIN));
}
