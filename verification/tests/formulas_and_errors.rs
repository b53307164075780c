use stellarlend::accounting::{AccountingError, AccountingState};
use stellarlend::address::AccountId;
use stellarlend::collateral::{reference_validate_collateral_ratio, CollateralError};
use stellarlend::contract::HelloContract;
use stellarlend::debt_token::DebtTokenRegistry;
use stellarlend::deposit::{DepositError, DepositState};
use stellarlend::explorer::state_has_headroom;
use stellarlend::health_factor::{reference_health_factor, HEALTH_FACTOR_NO_DEBT};
use stellarlend::interest::reference_interest;
use stellarlend::liquidation::reference_max_liquidatable;
use stellarlend::rewards::RewardsState;
use stellarlend::state_machine::{apply_action, ProtocolState, StateAction};
use stellarlend::withdraw::{WithdrawError, WithdrawState};

#[test]
fn greeting() {
    assert_eq!(HelloContract::hello(), "Hello");
}

#[test]
fn interest_formula_exact_values() {
    // 1_000_000 * 500 * 86_400 / (10_000 * 31_536_000) = 136.98.. -> 136
    assert_eq!(reference_interest(1_000_000, 86_400), Some(136));
    // A full year is 5%.
    assert_eq!(reference_interest(1_000_000, 31_536_000), Some(50_000));
    // Negative principal rounds toward zero.
    assert_eq!(reference_interest(-1_000_000, 86_400), Some(-136));
    // The first product overflows.
    assert_eq!(reference_interest(i128::MAX, 1), None);
}

#[test]
fn collateral_overflow_is_reported() {
    assert_eq!(reference_validate_collateral_ratio(i128::MAX, i128::MAX), Err(CollateralError::Overflow));
    assert_eq!(reference_validate_collateral_ratio(1_499, 1_000), Err(CollateralError::InsufficientCollateral));
    assert_eq!(reference_validate_collateral_ratio(1_500, 1_000), Ok(()));
}

#[test]
fn health_factor_formula_exact_values() {
    // weighted = 1_000_000 * 8_000 / 10_000 = 800_000; hf = 800_000 * 10_000 / 400_000
    assert_eq!(reference_health_factor(1_000_000, 400_000, true, 8_000, true), Some(20_000));
    assert_eq!(reference_health_factor(5, -1, false, 8_000, true), Some(HEALTH_FACTOR_NO_DEBT));
    assert_eq!(reference_health_factor(5, 10, true, 8_000, false), None);
    assert_eq!(reference_health_factor(i128::MAX, 10, true, 8_000, true), None);
}

#[test]
fn liquidation_formula_exact_values() {
    // hf = (600_000 * 8_000 / 10_000) * 10_000 / 1_000_000 = 4_800: half the debt is liquidatable.
    assert_eq!(reference_max_liquidatable(1_000_001, 600_000, 1_000_000, 5_000, 8_000, true), 500_000);
    // A zero health factor is not liquidated.
    assert_eq!(reference_max_liquidatable(1_000, 0, 1_000, 5_000, 8_000, true), 0);
    // The close-factor product overflows.
    assert_eq!(reference_max_liquidatable(i128::MAX, 600_000, 1_000_000, 5_000, 8_000, true), 0);
}

#[test]
fn accounting_errors() {
    let mut s = AccountingState::new(i128::MAX);
    assert_eq!(s.apply_borrow(0), Err(AccountingError::InvalidAmount));
    s.apply_borrow(1).unwrap();
    assert_eq!(s.apply_borrow(i128::MAX), Err(AccountingError::Overflow));
    assert_eq!(s.total_debt, 1);
    assert_eq!(s.apply_repay(-3), Err(AccountingError::InvalidAmount));
}

#[test]
fn repayment_pays_interest_first_and_refusals_change_nothing() {
    let mut s = AccountingState::new(i128::MAX);
    s.apply_borrow(1_000).unwrap();
    s.user_interest = 100;
    assert_eq!(s.apply_repay(1_101), Err(AccountingError::RepayAmountTooHigh));
    assert_eq!((s.total_debt, s.user_principal, s.user_interest), (1_000, 1_000, 100));
    s.apply_repay(60).unwrap();
    assert_eq!((s.total_debt, s.user_principal, s.user_interest), (1_000, 1_000, 40));
    s.apply_repay(540).unwrap();
    assert_eq!((s.total_debt, s.user_principal, s.user_interest), (500, 500, 0));
}

#[test]
fn deposit_errors() {
    let mut s = DepositState::new(i128::MAX, 10);
    assert_eq!(s.apply_deposit(5), Err(DepositError::InvalidAmount));
    s.apply_deposit(i128::MAX / 2 + 1).unwrap();
    assert_eq!(s.apply_deposit(i128::MAX / 2 + 1), Err(DepositError::Overflow));
    let mut capped = DepositState::new(100, 1);
    capped.apply_deposit(60).unwrap();
    assert_eq!(capped.apply_deposit(41), Err(DepositError::ExceedsDepositCap));
    assert!(capped.apply_deposit(40).is_ok());
    assert_eq!(capped.total_deposits, 100);
}

#[test]
fn withdraw_errors() {
    let mut s = WithdrawState::new(100, 100, 0, 10);
    assert_eq!(s.apply_withdraw(5), Err(WithdrawError::InvalidAmount));
    let mut huge_debt = WithdrawState::new(i128::MAX, i128::MAX, i128::MAX, 0);
    assert_eq!(huge_debt.apply_withdraw(1), Err(WithdrawError::Overflow));
    // The pool total drops to zero when the subtraction would overflow.
    let mut odd_pool = WithdrawState::new(10, i128::MIN, 0, 0);
    odd_pool.apply_withdraw(5).unwrap();
    assert_eq!((odd_pool.user_collateral, odd_pool.total_deposits), (5, 0));
}

#[test]
fn rewards_formulas_exact_values() {
    let mut s = RewardsState::new(1_000, 1_000_000);
    s.update_global(3_600);
    // 1_000 * 3_600 * 1e9 / 1e6
    assert_eq!(s.global_index, 3_600_000_000);
    s.update_user(3_600, 2_000);
    // 2_000 * 3.6e9 / 1e9
    assert_eq!(s.user_accrued, 7_200);
    assert_eq!(s.user_index, 3_600_000_000);
    assert_eq!(s.claim(), 7_200);
    assert_eq!(s.user_accrued, 0);
}

#[test]
fn mint_then_burn_restores_holdings() {
    let mut registry = DebtTokenRegistry::new();
    let user = AccountId::new("GCEZWKCA5VLDNRLN3RPRJMRZOX3Z6G5CHCGSNFHEYVXM3XOJMDS674JZ");
    let before = registry.get_user_debt_tokens(&user);
    let t = registry.mint_debt_token(&user, None, 10, 500, 7).unwrap();
    registry.burn_debt_token(&user, t).unwrap();
    assert_eq!(registry.get_user_debt_tokens(&user), before);
    assert_eq!(registry.get_total_supply(), 0);
    // Ids are never reused.
    assert_eq!(registry.get_next_token_id(), t + 1);
}

#[test]
fn deposit_then_withdraw_restores_the_simulated_state() {
    let user = AccountId::new("GCEZWKCA5VLDNRLN3RPRJMRZOX3Z6G5CHCGSNFHEYVXM3XOJMDS674JZ");
    let asset = AccountId::new("CA3D5KRYM6CB7OWQ6TWYRR3Z4T7GNZLKERYNZGGA5SOAOPIFY6YQGAXE");
    let mut s = ProtocolState::empty();
    s.total_assets = 77;
    let dep = StateAction::Deposit { user: user.duplicate(), asset: asset.duplicate(), amount: 10_000 };
    let wd = StateAction::Withdraw { user, asset, amount: 10_000 };
    let back = apply_action(&apply_action(&s, &dep), &wd);
    assert_eq!(back.total_assets, 77);
}

#[test]
fn headroom_bounds() {
    let mut s = ProtocolState::empty();
    assert!(state_has_headroom(&s, 4));
    s.total_assets = i128::MAX - 400_000;
    assert!(state_has_headroom(&s, 4));
    assert!(!state_has_headroom(&s, 5));
    s.total_assets = 0;
    s.interest_index = i128::MAX - 39_999;
    assert!(!state_has_headroom(&s, 4));
}

#[test]
fn addresses_in_diagnostics() {
    let account = AccountId::new("GCEZWKCA5VLDNRLN3RPRJMRZOX3Z6G5CHCGSNFHEYVXM3XOJMDS674JZ");
    assert_eq!(account.debug_text(), "AccountId(GCEZWKCA5VLDNRLN3RPRJMRZOX3Z6G5CHCGSNFHEYVXM3XOJMDS674JZ)");
    let contract = AccountId::new("CA3D5KRYM6CB7OWQ6TWYRR3Z4T7GNZLKERYNZGGA5SOAOPIFY6YQGAXE");
    assert_eq!(contract.debug_text(), "Contract(CA3D5KRYM6CB7OWQ6TWYRR3Z4T7GNZLKERYNZGGA5SOAOPIFY6YQGAXE)");
    assert_eq!(AccountId::new("").debug_text(), "");
}
