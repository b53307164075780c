use stellarlend::address::AccountId;
use stellarlend::debt_token::{DebtTokenError, DebtTokenRegistry};

const ADMIN: &str = "GBRPYHIL2CI3FNQ4BXLFMNDLFJUNPU2HY3ZMFSHONUCEOASW7QC7OX2H";
const USER: &str = "GCEZWKCA5VLDNRLN3RPRJMRZOX3Z6G5CHCGSNFHEYVXM3XOJMDS674JZ";
const USER2: &str = "GDQNY3PBOJOKYZSRMK2S7LHHGWZIUISD4QORETLMXEWXBI7KFZZMKTL3";
const RECIPIENT: &str = "GAIH3ULLFQ4DGSECF2AR555KZ4KNDGEKN4AFI4SU2M7B43MGK3QJZNSR";
const COLLATERAL: &str = "CA3D5KRYM6CB7OWQ6TWYRR3Z4T7GNZLKERYNZGGA5SOAOPIFY6YQGAXE";

/// The ledger time of a fresh test ledger.
const GENESIS: u64 = 0;

/// A later ledger time.
const NOW: u64 = 1_700_000_000;

fn addr(key: &str) -> AccountId {
    AccountId::new(key)
}

fn collateral() -> Option<AccountId> {
    Some(addr(COLLATERAL))
}

fn admin() -> Option<AccountId> {
    Some(addr(ADMIN))
}

#[test]
fn test_mint_debt_token_success() {
    let mut registry = DebtTokenRegistry::new();
    let user = addr(USER);
    let principal = 1000000;
    let interest_rate = 500;
    let result = registry.mint_debt_token(&user, collateral(), principal, interest_rate, GENESIS);

    assert!(result.is_ok());
    let token_id = result.unwrap();
    assert!(token_id > 0);

    let position = registry.get_debt_position(token_id).unwrap();
    assert_eq!(position.borrower.key, USER);
    assert_eq!(position.principal, principal);
    assert_eq!(position.interest_rate_bps, interest_rate);
    assert_eq!(position.collateral_asset.unwrap().key, COLLATERAL);
    assert!(!position.is_liquidatable);

    let user_tokens = registry.get_user_debt_tokens(&user);
    assert!(user_tokens.contains(&token_id));

    assert_eq!(registry.get_total_supply(), 1);
}

#[test]
fn test_mint_debt_token_already_tokenized() {
    let mut registry = DebtTokenRegistry::new();
    let user = addr(USER);
    let _token_id = registry.mint_debt_token(&user, collateral(), 1000000, 500, GENESIS).unwrap();

    let result = registry.mint_debt_token(&user, collateral(), 2000000, 500, GENESIS);
    assert!(result.is_err());
    assert_eq!(result.unwrap_err(), DebtTokenError::AlreadyTokenized);

    assert_eq!(registry.get_total_supply(), 1);
}

#[test]
fn test_transfer_debt_token_success() {
    let mut registry = DebtTokenRegistry::new();
    let user = addr(USER);
    let recipient = addr(RECIPIENT);
    let token_id = registry.mint_debt_token(&user, collateral(), 1000000, 500, GENESIS).unwrap();

    let result = registry.transfer_debt_token(&user, &recipient, token_id, GENESIS);
    assert!(result.is_ok());

    assert!(!registry.get_user_debt_tokens(&user).contains(&token_id));
    assert!(registry.get_user_debt_tokens(&recipient).contains(&token_id));

    let position = registry.get_debt_position(token_id).unwrap();
    assert!(position.updated_at > 0);
}

#[test]
fn test_transfer_debt_token_unauthorized() {
    let mut registry = DebtTokenRegistry::new();
    let token_id = registry.mint_debt_token(&addr(USER), collateral(), 1000000, 500, GENESIS).unwrap();

    let result = registry.transfer_debt_token(&addr(USER2), &addr(RECIPIENT), token_id, GENESIS);
    assert!(result.is_err());
    assert_eq!(result.unwrap_err(), DebtTokenError::Unauthorized);
}

#[test]
fn test_transfer_debt_token_to_zero_address() {
    let mut registry = DebtTokenRegistry::new();
    let user = addr(USER);
    let token_id = registry.mint_debt_token(&user, collateral(), 1000000, 500, GENESIS).unwrap();

    let result = registry.transfer_debt_token(&user, &AccountId::zero(), token_id, GENESIS);
    assert!(result.is_err());
    assert_eq!(result.unwrap_err(), DebtTokenError::ZeroAddress);
}

#[test]
fn test_transfer_debt_token_paused() {
    let mut registry = DebtTokenRegistry::new();
    let user = addr(USER);
    let token_id = registry.mint_debt_token(&user, collateral(), 1000000, 500, GENESIS).unwrap();

    registry.set_transfer_pause(&admin(), &addr(ADMIN), true).unwrap();

    let result = registry.transfer_debt_token(&user, &addr(RECIPIENT), token_id, GENESIS);
    assert!(result.is_err());
    assert_eq!(result.unwrap_err(), DebtTokenError::TransferPaused);
}

#[test]
fn test_burn_debt_token_success() {
    let mut registry = DebtTokenRegistry::new();
    let user = addr(USER);
    let token_id = registry.mint_debt_token(&user, collateral(), 1000000, 500, GENESIS).unwrap();

    let result = registry.burn_debt_token(&user, token_id);
    assert!(result.is_ok());

    assert!(registry.get_debt_position(token_id).is_none());
    assert!(!registry.get_user_debt_tokens(&user).contains(&token_id));
    assert_eq!(registry.get_total_supply(), 0);
}

#[test]
fn test_burn_debt_token_unauthorized() {
    let mut registry = DebtTokenRegistry::new();
    let token_id = registry.mint_debt_token(&addr(USER), collateral(), 1000000, 500, GENESIS).unwrap();

    let result = registry.burn_debt_token(&addr(USER2), token_id);
    assert!(result.is_err());
    assert_eq!(result.unwrap_err(), DebtTokenError::Unauthorized);
}

#[test]
fn test_set_transfer_pause_success() {
    let mut registry = DebtTokenRegistry::new();
    let result = registry.set_transfer_pause(&admin(), &addr(ADMIN), true);
    assert!(result.is_ok());
    assert!(registry.is_transfer_paused());
}

#[test]
fn test_set_transfer_pause_unauthorized() {
    let mut registry = DebtTokenRegistry::new();
    let result = registry.set_transfer_pause(&admin(), &addr(USER2), true);
    assert!(result.is_err());
    assert_eq!(result.unwrap_err(), DebtTokenError::Unauthorized);
    assert!(!registry.is_transfer_paused());
}

#[test]
fn test_set_address_blocked_success() {
    let mut registry = DebtTokenRegistry::new();
    let blocked = addr(RECIPIENT);
    let result = registry.set_address_blocked(&admin(), &addr(ADMIN), &blocked, true);
    assert!(result.is_ok());
    assert!(registry.is_address_blocked(&blocked));
}

#[test]
fn test_set_address_blocked_unauthorized() {
    let mut registry = DebtTokenRegistry::new();
    let result = registry.set_address_blocked(&admin(), &addr(USER2), &addr(RECIPIENT), true);
    assert!(result.is_err());
    assert_eq!(result.unwrap_err(), DebtTokenError::Unauthorized);
}

#[test]
fn test_debt_token_position_metadata() {
    let mut registry = DebtTokenRegistry::new();
    let user = addr(USER);
    let token_id = registry.mint_debt_token(&user, collateral(), 1000000, 500, GENESIS).unwrap();

    let position = registry.get_debt_position(token_id).unwrap();
    assert_eq!(position.borrower.key, USER);
    assert_eq!(position.principal, 1000000);
    assert_eq!(position.interest_rate_bps, 500);
    assert_eq!(position.collateral_asset.as_ref().unwrap().key, COLLATERAL);
    assert_eq!(position.accrued_interest, 0);
    assert_eq!(position.last_accrual_time, 0);
    assert!(!position.is_liquidatable);
    assert!(position.created_at > 0);
    assert!(position.updated_at > 0);
}

#[test]
fn test_get_user_debt_tokens_empty() {
    let registry = DebtTokenRegistry::new();
    let tokens = registry.get_user_debt_tokens(&addr(USER));
    assert_eq!(tokens.len(), 0);
}

#[test]
fn test_get_debt_token_total_supply() {
    let mut registry = DebtTokenRegistry::new();
    let user1 = addr(USER);
    let user2 = addr(USER2);
    let token1 = registry.mint_debt_token(&user1, collateral(), 1000000, 500, GENESIS).unwrap();
    let _token2 = registry.mint_debt_token(&user2, collateral(), 2000000, 500, GENESIS).unwrap();

    assert_eq!(registry.get_total_supply(), 2);

    registry.burn_debt_token(&user1, token1).unwrap();
    assert_eq!(registry.get_total_supply(), 1);
}

#[test]
fn ids_are_sequential_from_one() {
    let mut registry = DebtTokenRegistry::new();
    let a = registry.mint_debt_token(&addr(USER), collateral(), 10, 500, NOW).unwrap();
    let b = registry.mint_debt_token(&addr(USER2), collateral(), 10, 500, NOW).unwrap();
    let c = registry.mint_debt_token(&addr(USER), None, 10, 500, NOW).unwrap();
    assert_eq!((a, b, c), (1, 2, 3));
    assert_eq!(registry.get_user_debt_tokens(&addr(USER)), vec![1, 3]);
}

#[test]
fn mint_refusals() {
    let mut registry = DebtTokenRegistry::new();
    assert_eq!(
        registry.mint_debt_token(&addr(USER), collateral(), 0, 500, NOW).unwrap_err(),
        DebtTokenError::PositionNotFound
    );
    registry.set_transfer_pause(&admin(), &addr(ADMIN), true).unwrap();
    assert_eq!(
        registry.mint_debt_token(&addr(USER), collateral(), 10, 500, NOW).unwrap_err(),
        DebtTokenError::TransferPaused
    );
    assert_eq!(registry.get_total_supply(), 0);
}

#[test]
fn transfer_refusals() {
    let mut registry = DebtTokenRegistry::new();
    let user = addr(USER);
    let token_id = registry.mint_debt_token(&user, collateral(), 10, 500, NOW).unwrap();
    assert_eq!(
        registry.transfer_debt_token(&user, &addr(RECIPIENT), token_id + 1, NOW).unwrap_err(),
        DebtTokenError::TokenNotFound
    );
    registry.set_address_blocked(&admin(), &addr(ADMIN), &addr(RECIPIENT), true).unwrap();
    assert_eq!(
        registry.transfer_debt_token(&user, &addr(RECIPIENT), token_id, NOW).unwrap_err(),
        DebtTokenError::TransferBlocked
    );
    registry.set_address_blocked(&admin(), &addr(ADMIN), &addr(RECIPIENT), false).unwrap();
    assert!(registry.transfer_debt_token(&user, &addr(RECIPIENT), token_id, NOW).is_ok());
    assert_eq!(
        registry.burn_debt_token(&user, token_id + 7).unwrap_err(),
        DebtTokenError::TokenNotFound
    );
}

#[test]
fn transfer_and_back_restores_holdings() {
    let mut registry = DebtTokenRegistry::new();
    let user = addr(USER);
    let recipient = addr(RECIPIENT);
    let t = registry.mint_debt_token(&user, collateral(), 10, 500, NOW).unwrap();
    registry.transfer_debt_token(&user, &recipient, t, NOW).unwrap();
    registry.transfer_debt_token(&recipient, &user, t, NOW).unwrap();
    assert_eq!(registry.get_user_debt_tokens(&user), vec![t]);
    assert!(registry.get_user_debt_tokens(&recipient).is_empty());
}

#[test]
fn no_admin_means_no_switches() {
    let mut registry = DebtTokenRegistry::new();
    assert_eq!(
        registry.set_transfer_pause(&None, &addr(ADMIN), true).unwrap_err(),
        DebtTokenError::Unauthorized
    );
}

#[test]
fn stamps_follow_the_ledger_time() {
    let mut registry = DebtTokenRegistry::new();
    let user = addr(USER);
    let token_id = registry.mint_debt_token(&user, collateral(), 1000000, 500, NOW).unwrap();
    let position = registry.get_debt_position(token_id).unwrap();
    assert_eq!((position.last_accrual_time, position.created_at, position.updated_at), (NOW, NOW, NOW));
    registry.transfer_debt_token(&user, &addr(RECIPIENT), token_id, NOW + 60).unwrap();
    let position = registry.get_debt_position(token_id).unwrap();
    assert_eq!((position.created_at, position.updated_at), (NOW, NOW + 60));
    // On a fresh ledger interest is accrued up to time 0, and the creation
    // and update stamps are 1.
    let other = registry.mint_debt_token(&addr(USER2), collateral(), 10, 500, 0).unwrap();
    let position = registry.get_debt_position(other).unwrap();
    assert_eq!((position.last_accrual_time, position.created_at, position.updated_at), (0, 1, 1));
}

#[test]
fn burned_ids_are_never_issued_again() {
    let mut registry = DebtTokenRegistry::new();
    let user = addr(USER);
    let first = registry.mint_debt_token(&user, collateral(), 10, 500, NOW).unwrap();
    registry.burn_debt_token(&user, first).unwrap();
    // A refused mint consumes no id.
    assert!(registry.mint_debt_token(&user, collateral(), 0, 500, NOW).is_err());
    let second = registry.mint_debt_token(&user, collateral(), 10, 500, NOW).unwrap();
    assert_eq!((first, second), (1, 2));
    assert!(registry.get_debt_position(first).is_none());
}
