use stellarlend::withdraw::{WithdrawError, WithdrawState};

/// **W-01**: Zero amount is rejected.
#[test]
fn lemma_w01_zero_amount_rejected() {
    let mut s = WithdrawState::new(100_000, 100_000, 0, 0);
    assert_eq!(s.apply_withdraw(0), Err(WithdrawError::InvalidAmount), "W-01");
}

/// **W-02**: Withdraw exceeding balance is rejected.
#[test]
fn lemma_w02_over_balance_rejected() {
    let mut s = WithdrawState::new(100_000, 100_000, 0, 0);
    assert_eq!(s.apply_withdraw(100_001), Err(WithdrawError::InsufficientCollateral), "W-02");
}

/// **W-03**: Remaining balance satisfies the collateral ratio for outstanding debt.
#[test]
fn lemma_w03_collateral_ratio_maintained() {
    // User: 150_000 collateral, 100_000 debt → ratio = 150% exactly at threshold
    let mut s = WithdrawState::new(150_000, 150_000, 100_000, 0);
    // Attempt to withdraw 1 unit, leaving 149_999 < 150_000 min → should fail
    assert_eq!(
        s.apply_withdraw(1),
        Err(WithdrawError::InsufficientCollateralRatio),
        "W-03: ratio below threshold should be rejected"
    );
    // Withdrawing 0 of existing debt leaves ratio intact (no-op via W-01)
    // Confirm balance is unchanged
    assert_eq!(s.user_collateral, 150_000, "W-03: balance mutated on rejection");
}

/// **W-04**: User balance decreases by exactly the withdrawn amount.
#[test]
fn lemma_w04_user_balance_decremented_correctly() {
    let mut s = WithdrawState::new(500_000, 500_000, 0, 0);
    s.apply_withdraw(200_000).unwrap();
    assert_eq!(s.user_collateral, 300_000, "W-04");
}

/// **W-05**: Total deposits decreases by exactly the withdrawn amount.
#[test]
fn lemma_w05_total_decremented_correctly() {
    let mut s = WithdrawState::new(500_000, 500_000, 0, 0);
    s.apply_withdraw(200_000).unwrap();
    assert_eq!(s.total_deposits, 300_000, "W-05");
}

/// **W-06**: Full withdraw with no outstanding debt succeeds.
#[test]
fn lemma_w06_full_withdraw_no_debt() {
    let mut s = WithdrawState::new(500_000, 500_000, 0, 0);
    assert!(s.apply_withdraw(500_000).is_ok(), "W-06");
    assert_eq!(s.user_collateral, 0, "W-06: balance not zeroed");
}

/// **W-07**: Withdraw leaving insufficient collateral for active debt is rejected.
#[test]
fn lemma_w07_insufficient_collateral_for_debt_rejected() {
    // 200_000 collateral, 100_000 debt → min_collateral = 150_000
    // Withdrawing 100_000 leaves 100_000 < 150_000 → rejected
    let mut s = WithdrawState::new(200_000, 200_000, 100_000, 0);
    assert_eq!(
        s.apply_withdraw(100_000),
        Err(WithdrawError::InsufficientCollateralRatio),
        "W-07"
    );
    assert_eq!(s.user_collateral, 200_000, "W-07: state mutated on rejection");
}
