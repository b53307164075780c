use stellarlend::address::AccountId;
use stellarlend::invariants::{
    assert_all_for_user, assert_all_stateless, check_inv_001_solvency,
    check_inv_002_collateral_non_negative, check_inv_003_debt_non_negative,
    check_inv_004_liquidation_eligible, check_inv_005_no_value_creation_on_borrow,
    check_inv_006_admin_stability, check_inv_007_pause_immutability,
    check_inv_008_health_factor_consistency, check_inv_009_collateral_covers_debt,
    check_inv_010_total_assets_monotonic, check_inv_011_no_mint_on_borrow,
    check_inv_012_interest_monotonicity, check_inv_013_reserve_monotonic,
    check_inv_014_access_control, ExemptionFlags, InvariantViolation,
};
use stellarlend::state_machine::UserState;

const ADMIN: &str = "GBRPYHIL2CI3FNQ4BXLFMNDLFJUNPU2HY3ZMFSHONUCEOASW7QC7OX2H";
const OTHER: &str = "GCEZWKCA5VLDNRLN3RPRJMRZOX3Z6G5CHCGSNFHEYVXM3XOJMDS674JZ";

/// The readings of a user who has never interacted with the protocol.
fn fresh_user() -> UserState {
    UserState {
        collateral_balance: 0,
        debt_balance: 0,
        health_factor: 100_000_000,
        collateral_value: 0,
        debt_value: 0,
    }
}

#[test]
fn test_violation_struct_fields() {
    let v = InvariantViolation {
        invariant_id: "INV-001",
        message: "test violation",
        detail: "test detail".to_string(),
    };
    assert_eq!(v.invariant_id, "INV-001");
    assert_eq!(v.message, "test violation");
    assert_eq!(v.detail, "test detail");
}

#[test]
fn test_exemption_flags_default() {
    let flags = ExemptionFlags::default();
    assert!(!flags.rate_reset_in_progress);
    assert!(!flags.oracle_fallback_active);
    assert!(!flags.flash_loan_context);
}

#[test]
fn test_inv_002_fresh_user_passes() {
    // A fresh user has no collateral stored.
    assert!(check_inv_002_collateral_non_negative(fresh_user().collateral_balance).is_ok());
}

#[test]
fn test_inv_003_fresh_user_passes() {
    assert!(check_inv_003_debt_non_negative(fresh_user().debt_balance).is_ok());
}

#[test]
fn test_inv_005_no_increase_passes() {
    // A fresh user's collateral value is 0, which is <= before.
    let before: i128 = 1_000_000;
    let result = check_inv_005_no_value_creation_on_borrow(before, fresh_user().collateral_value);
    assert!(result.is_ok());
}

#[test]
fn test_assert_all_returns_vec() {
    let violations = assert_all_for_user(&fresh_user(), false);
    assert!(violations.is_empty(), "Fresh user should have no violations");
}

#[test]
fn inv_001_reports_the_health_factor() {
    assert!(check_inv_001_solvency(10_000).is_ok());
    let v = check_inv_001_solvency(9_999).unwrap_err();
    assert_eq!(v.invariant_id, "INV-001");
    assert_eq!(v.message, "Solvency: health_factor < 1.0 after action — undercollateralised");
    assert_eq!(v.detail, "health_factor: 9999");
}

#[test]
fn inv_002_and_003_report_negative_balances() {
    let v = check_inv_002_collateral_non_negative(-5).unwrap_err();
    assert_eq!(v.invariant_id, "INV-002");
    assert_eq!(v.detail, "balance: -5");
    let v = check_inv_003_debt_non_negative(-170141183460469231731687303715884105728).unwrap_err();
    assert_eq!(v.invariant_id, "INV-003");
    assert_eq!(v.detail, "balance: -170141183460469231731687303715884105728");
    assert!(check_inv_003_debt_non_negative(0).is_ok());
}

#[test]
fn inv_004_only_fires_when_liquidation_runs() {
    assert!(check_inv_004_liquidation_eligible(true, 5_000, 0).is_ok());
    assert!(check_inv_004_liquidation_eligible(false, 5_000, 10).is_ok());
    let v = check_inv_004_liquidation_eligible(false, 5_000, 0).unwrap_err();
    assert_eq!(v.invariant_id, "INV-004");
    assert_eq!(v.detail, "health_factor: 5000, debt: 0");
}

#[test]
fn inv_005_reports_value_growth() {
    let v = check_inv_005_no_value_creation_on_borrow(100, 101).unwrap_err();
    assert_eq!(v.invariant_id, "INV-005");
    assert_eq!(v.detail, "before: 100, after: 101");
}

#[test]
fn inv_006_and_014_compare_admins() {
    let admin = AccountId::new(ADMIN);
    assert!(check_inv_006_admin_stability(&admin, &Some(AccountId::new(ADMIN))).is_ok());
    let v = check_inv_006_admin_stability(&admin, &Some(AccountId::new(OTHER))).unwrap_err();
    assert_eq!(v.invariant_id, "INV-006");
    assert_eq!(v.detail, format!("before: {}, after: {}", ADMIN, OTHER));
    let v = check_inv_014_access_control(&Some(admin.duplicate()), &None).unwrap_err();
    assert_eq!(v.invariant_id, "INV-014");
    assert_eq!(v.detail, format!("before: {}, after: None", ADMIN));
    assert!(check_inv_014_access_control(&Some(admin.duplicate()), &Some(AccountId::new(ADMIN))).is_ok());
    // An admin that was never set is unchanged.
    assert!(check_inv_014_access_control(&None, &None).is_ok());
}

#[test]
fn inv_007_checks_debt_before_collateral() {
    assert!(check_inv_007_pause_immutability(false, 1, 2, 3, 4).is_ok());
    assert!(check_inv_007_pause_immutability(true, 1, 2, 1, 2).is_ok());
    let v = check_inv_007_pause_immutability(true, 1, 2, 3, 4).unwrap_err();
    assert_eq!(v.message, "Pause: debt_balance changed while protocol is paused");
    assert_eq!(v.detail, "before: 1, after: 3");
    let v = check_inv_007_pause_immutability(true, 1, 2, 1, 4).unwrap_err();
    assert_eq!(v.message, "Pause: collateral_balance changed while protocol is paused");
    assert_eq!(v.detail, "before: 2, after: 4");
}

#[test]
fn inv_008_catches_both_contradictions() {
    assert!(check_inv_008_health_factor_consistency(0, 10_000).is_ok());
    let v = check_inv_008_health_factor_consistency(0, 9_000).unwrap_err();
    assert_eq!(v.message, "Health factor: debt == 0 but health_factor < 1.0 — contradictory");
    let v = check_inv_008_health_factor_consistency(7, 0).unwrap_err();
    assert_eq!(v.message, "Health factor: debt > 0 but health_factor == 0 — arithmetic error");
    assert_eq!(v.detail, "debt: 7, health_factor: 0");
}

#[test]
fn inv_009_only_on_healthy_positions() {
    assert!(check_inv_009_collateral_covers_debt(9_999, 1, 100).is_ok());
    let v = check_inv_009_collateral_covers_debt(10_000, 1, 100).unwrap_err();
    assert_eq!(v.invariant_id, "INV-009");
    assert_eq!(v.detail, "collateral_value: 1, debt_value: 100");
}

#[test]
fn protocol_level_monotonicity_checks() {
    assert!(check_inv_010_total_assets_monotonic(5, 5).is_ok());
    assert_eq!(check_inv_010_total_assets_monotonic(5, 4).unwrap_err().invariant_id, "INV-010");
    assert!(check_inv_011_no_mint_on_borrow(5, 5).is_ok());
    assert_eq!(check_inv_011_no_mint_on_borrow(5, 6).unwrap_err().invariant_id, "INV-011");
    let exempt = ExemptionFlags { rate_reset_in_progress: true, ..ExemptionFlags::default() };
    assert!(check_inv_012_interest_monotonicity(10, 9, &exempt).is_ok());
    let fallback = ExemptionFlags { oracle_fallback_active: true, ..ExemptionFlags::default() };
    assert!(check_inv_012_interest_monotonicity(10, 9, &fallback).is_ok());
    let v = check_inv_012_interest_monotonicity(10, 9, &ExemptionFlags::default()).unwrap_err();
    assert_eq!(v.detail, "before: 10, after: 9");
    assert_eq!(check_inv_013_reserve_monotonic(3, 2).unwrap_err().invariant_id, "INV-013");
    assert!(assert_all_stateless(&ExemptionFlags::default()).is_empty());
}

#[test]
fn assert_all_collects_every_violation_in_order() {
    let broken = UserState {
        collateral_balance: -1,
        debt_balance: 0,
        health_factor: 5_000,
        collateral_value: 0,
        debt_value: 0,
    };
    let ids: Vec<&str> = assert_all_for_user(&broken, false).iter().map(|v| v.invariant_id).collect();
    assert_eq!(ids, vec!["INV-001", "INV-002", "INV-004", "INV-008"]);
    let ids: Vec<&str> = assert_all_for_user(&broken, true).iter().map(|v| v.invariant_id).collect();
    assert_eq!(ids, vec!["INV-001", "INV-002", "INV-008"]);
}
