use stellarlend::address::AccountId;
use stellarlend::explorer::{execute_action_sequence, StateMachineExplorer};
use stellarlend::state_machine::{
    apply_action, check_invariants, check_state_invariants, reproduce_violation, ProtocolState,
    StateAction, UserState,
};

const USER: &str = "GCEZWKCA5VLDNRLN3RPRJMRZOX3Z6G5CHCGSNFHEYVXM3XOJMDS674JZ";
const USER2: &str = "GDQNY3PBOJOKYZSRMK2S7LHHGWZIUISD4QORETLMXEWXBI7KFZZMKTL3";
const ASSET: &str = "CA3D5KRYM6CB7OWQ6TWYRR3Z4T7GNZLKERYNZGGA5SOAOPIFY6YQGAXE";
const ASSET2: &str = "CAS3J7GYLGXMF6TDJBBYYSE3HQ6BBSMLNUQ34T6TZMYMW2EVH34XOWMA";

fn addr(key: &str) -> AccountId {
    AccountId::new(key)
}

fn state_with_assets(total: i128) -> ProtocolState {
    let mut s = ProtocolState::empty();
    s.total_assets = total;
    s
}

#[test]
fn test_state_machine_explorer_creation() {
    let explorer = StateMachineExplorer::new(3, 1000);
    assert_eq!(explorer.max_depth(), 3);
    assert_eq!(explorer.confidence_threshold(), 1000);
}

#[test]
fn test_action_generation() {
    let mut explorer = StateMachineExplorer::new(2, 100);
    explorer.add_user(addr(USER));
    explorer.add_asset(addr(ASSET));

    let actions = explorer.generate_all_actions();
    assert!(!actions.is_empty());
}

#[test]
fn action_generation_counts() {
    let mut explorer = StateMachineExplorer::new(2, 100);
    assert!(explorer.generate_all_actions().is_empty());
    explorer.add_user(addr(USER));
    assert!(explorer.generate_all_actions().is_empty());
    explorer.add_asset(addr(ASSET));
    // 3 deposits, 3 withdrawals, no borrow (a single asset), 3 repays, 3 time steps.
    assert_eq!(explorer.generate_all_actions().len(), 12);
    explorer.add_user(addr(USER2));
    explorer.add_asset(addr(ASSET2));
    // Per kind: 2 users * 2 assets * 3 amounts; borrows: 2 users * 2 ordered pairs * 3.
    assert_eq!(explorer.generate_all_actions().len(), 12 + 12 + 12 + 12 + 3);
}

#[test]
fn generated_actions_come_in_order() {
    let mut explorer = StateMachineExplorer::new(1, 100);
    explorer.add_user(addr(USER));
    explorer.add_asset(addr(ASSET));
    let actions = explorer.generate_all_actions();
    match &actions[0] {
        StateAction::Deposit { user, asset, amount } => {
            assert_eq!(user.key, USER);
            assert_eq!(asset.key, ASSET);
            assert_eq!(*amount, 1000);
        }
        other => panic!("unexpected first action {:?}", other),
    }
    assert!(matches!(actions[5], StateAction::Withdraw { amount: 100000, .. }));
    assert!(matches!(actions[6], StateAction::Repay { amount: 1000, .. }));
    assert!(matches!(actions[11], StateAction::AdvanceTime { delta: 10000 }));
}

#[test]
fn sequences_of_each_depth() {
    let mut explorer = StateMachineExplorer::new(2, 100);
    explorer.add_user(addr(USER));
    explorer.add_asset(addr(ASSET));
    assert!(explorer.generate_action_sequences(0).is_empty());
    assert_eq!(explorer.generate_action_sequences(1).len(), 12);
    let pairs = explorer.generate_action_sequences(2);
    assert_eq!(pairs.len(), 144);
    assert!(pairs.iter().all(|s| s.len() == 2));
    assert!(matches!(pairs[1][1], StateAction::Deposit { amount: 10000, .. }));
}

#[test]
fn apply_action_effects() {
    let s = state_with_assets(50);
    let user = addr(USER);
    let asset = addr(ASSET);
    let dep = StateAction::Deposit { user: user.duplicate(), asset: asset.duplicate(), amount: 1000 };
    assert_eq!(apply_action(&s, &dep).total_assets, 1050);
    let wd = StateAction::Withdraw { user: user.duplicate(), asset: asset.duplicate(), amount: 100 };
    assert_eq!(apply_action(&s, &wd).total_assets, -50);
    let rep = StateAction::Repay { user: user.duplicate(), asset: asset.duplicate(), amount: 7 };
    assert_eq!(apply_action(&s, &rep).total_assets, 57);
    let bor = StateAction::Borrow {
        user: user.duplicate(),
        debt_asset: asset.duplicate(),
        collateral_asset: addr(ASSET2),
        amount: 1000,
    };
    assert_eq!(apply_action(&s, &bor).total_assets, 50);
    let t = apply_action(&s, &StateAction::AdvanceTime { delta: 100 });
    assert_eq!(t.interest_index, 100);
    assert_eq!(t.total_assets, 50);
}

#[test]
fn check_invariants_reports_protocol_and_users() {
    let mut s = state_with_assets(-5);
    s.protocol_reserves = -1;
    s.user_positions.push((
        addr(USER),
        UserState { collateral_balance: -2, debt_balance: 10, health_factor: 9_000, collateral_value: 0, debt_value: 0 },
    ));
    let v = check_invariants(&s);
    let ids: Vec<(&str, &str)> = v.iter().map(|x| (x.invariant_id, x.message)).collect();
    assert_eq!(
        ids,
        vec![
            ("INV-002", "Total assets negative"),
            ("INV-003", "Protocol reserves negative"),
            ("INV-001", "User undercollateralized"),
            ("INV-002", "Collateral balance negative"),
        ]
    );
    assert_eq!(v[0].detail, "total_assets: -5");
    assert_eq!(v[2].detail, format!("user: AccountId({}), health_factor: 9000", USER));
    assert!(check_invariants(&state_with_assets(0)).is_empty());
}

#[test]
fn reproduction_needs_a_broken_state() {
    let err = reproduce_violation(&state_with_assets(0)).unwrap_err();
    assert_eq!(err.invariant_id, "REPRO-001");
    assert_eq!(err.message, "Failed to reproduce violation");
    assert_eq!(err.detail, "No violations found after reproduction");
    assert!(reproduce_violation(&state_with_assets(-1)).is_ok());
    assert_eq!(check_state_invariants(&state_with_assets(-1)).len(), 1);
}

#[test]
fn replaying_a_sequence_records_each_step() {
    let user = addr(USER);
    let asset = addr(ASSET);
    let seq = vec![
        StateAction::Withdraw { user: user.duplicate(), asset: asset.duplicate(), amount: 1000 },
        StateAction::Deposit { user: user.duplicate(), asset: asset.duplicate(), amount: 10000 },
    ];
    let steps = execute_action_sequence(&seq, &state_with_assets(0));
    assert_eq!(steps.len(), 2);
    assert_eq!(steps[0].pre_state.total_assets, 0);
    assert_eq!(steps[0].post_state.total_assets, -1000);
    assert_eq!(steps[0].violations.len(), 1);
    assert_eq!(steps[1].pre_state.total_assets, -1000);
    assert_eq!(steps[1].post_state.total_assets, 9000);
    assert!(steps[1].violations.is_empty());
}

#[test]
fn exploration_stops_at_the_threshold() {
    let mut explorer = StateMachineExplorer::new(2, 5);
    explorer.add_user(addr(USER));
    explorer.add_asset(addr(ASSET));
    let steps = explorer.explore(&state_with_assets(1_000_000));
    // Five single-step sequences run before the count reaches the threshold.
    assert_eq!(explorer.get_execution_count(), 5);
    assert!(explorer.has_reached_confidence());
    assert_eq!(steps.len(), 5);
    // A second run still executes one sequence.
    let again = explorer.explore(&state_with_assets(1_000_000));
    assert_eq!(again.len(), 1);
    assert_eq!(explorer.get_execution_count(), 6);
}

#[test]
fn exploration_walks_every_sequence_below_the_threshold() {
    let mut explorer = StateMachineExplorer::new(2, 1000);
    explorer.add_user(addr(USER));
    explorer.add_asset(addr(ASSET));
    let steps = explorer.explore(&state_with_assets(1_000_000));
    // 12 sequences of one step and 144 of two.
    assert_eq!(explorer.get_execution_count(), 12 + 144);
    assert_eq!(steps.len(), 12 + 2 * 144);
    assert!(!explorer.has_reached_confidence());
    // Withdrawing 100_000 twice from 1_000_000 keeps the assets positive.
    assert!(steps.iter().all(|t| t.violations.is_empty()));
}

#[test]
fn exploration_without_users_does_nothing() {
    let mut explorer = StateMachineExplorer::new(3, 1);
    assert!(explorer.explore(&ProtocolState::empty()).is_empty());
    assert_eq!(explorer.get_execution_count(), 0);
}
