//! Systematic exploration of protocol action sequences: every sequence of
//! generated actions up to a maximum depth is replayed on a simulated
//! protocol state, and the state invariants are checked after each step.
//!
//! The explorer works on a captured `ProtocolState`; capturing the live
//! contract state, and replaying actions against the contract, is done by
//! the caller.
use vstd::prelude::*;
use crate::address::{AccountId, debug_text, duplicate_opt, opt_view};
use crate::invariants::{InvariantViolation, ViolationText, violations_view, only_if};
use crate::text::{append_i128, int_text};

verus! {

/// The readings of one user's position.
#[derive(Debug, Clone, Copy, Default)]
pub struct UserState {
    pub collateral_balance: i128,
    pub debt_balance: i128,
    pub health_factor: i128,
    pub collateral_value: i128,
    pub debt_value: i128,
}

/// A protocol action the explorer can replay.
#[derive(Debug)]
pub enum StateAction {
    Deposit { user: AccountId, asset: AccountId, amount: i128 },
    Withdraw { user: AccountId, asset: AccountId, amount: i128 },
    Borrow { user: AccountId, debt_asset: AccountId, collateral_asset: AccountId, amount: i128 },
    Repay { user: AccountId, asset: AccountId, amount: i128 },
    DepositCollateral { user: AccountId, asset: AccountId, amount: i128 },
    SetPause { pause_type: u8, paused: bool },
    SetLiquidationThreshold { bps: i128 },
    SetOraclePrice { asset: AccountId, price: i128 },
    AdvanceTime { delta: u64 },
}

impl StateAction {
    /// A copy of this action.
    pub fn duplicate(&self) -> (a: StateAction)
        ensures
            a == *self,
    {
        match self {
            StateAction::Deposit { user, asset, amount } => StateAction::Deposit {
                user: user.duplicate(),
                asset: asset.duplicate(),
                amount: *amount,
            },
            StateAction::Withdraw { user, asset, amount } => StateAction::Withdraw {
                user: user.duplicate(),
                asset: asset.duplicate(),
                amount: *amount,
            },
            StateAction::Borrow { user, debt_asset, collateral_asset, amount } => StateAction::Borrow {
                user: user.duplicate(),
                debt_asset: debt_asset.duplicate(),
                collateral_asset: collateral_asset.duplicate(),
                amount: *amount,
            },
            StateAction::Repay { user, asset, amount } => StateAction::Repay {
                user: user.duplicate(),
                asset: asset.duplicate(),
                amount: *amount,
            },
            StateAction::DepositCollateral { user, asset, amount } => StateAction::DepositCollateral {
                user: user.duplicate(),
                asset: asset.duplicate(),
                amount: *amount,
            },
            StateAction::SetPause { pause_type, paused } => StateAction::SetPause {
                pause_type: *pause_type,
                paused: *paused,
            },
            StateAction::SetLiquidationThreshold { bps } => StateAction::SetLiquidationThreshold {
                bps: *bps,
            },
            StateAction::SetOraclePrice { asset, price } => StateAction::SetOraclePrice {
                asset: asset.duplicate(),
                price: *price,
            },
            StateAction::AdvanceTime { delta } => StateAction::AdvanceTime { delta: *delta },
        }
    }
}

/// A captured protocol state.
#[derive(Debug)]
pub struct ProtocolState {
    pub total_assets: i128,
    pub protocol_reserves: i128,
    pub interest_index: i128,
    pub admin: Option<AccountId>,
    pub user_positions: Vec<(AccountId, UserState)>,
}

/// The content of a captured protocol state.
pub struct ProtocolView {
    pub total_assets: i128,
    pub protocol_reserves: i128,
    pub interest_index: i128,
    pub admin: Option<Seq<char>>,
    pub user_positions: Seq<(Seq<char>, UserState)>,
}

/// The content of a list of user positions.
pub open spec fn positions_view(v: Seq<(AccountId, UserState)>) -> Seq<(Seq<char>, UserState)> {
    v.map_values(|p: (AccountId, UserState)| (p.0@, p.1))
}

impl View for ProtocolState {
    type V = ProtocolView;

    open spec fn view(&self) -> ProtocolView {
        ProtocolView {
            total_assets: self.total_assets,
            protocol_reserves: self.protocol_reserves,
            interest_index: self.interest_index,
            admin: opt_view(self.admin),
            user_positions: positions_view(self.user_positions@),
        }
    }
}

impl ProtocolState {
    /// The empty state: no assets, reserves or interest, no admin, no users.
    pub fn empty() -> (s: ProtocolState)
        ensures
            s@ == (ProtocolView {
                total_assets: 0,
                protocol_reserves: 0,
                interest_index: 0,
                admin: None,
                user_positions: Seq::empty(),
            }),
    {
        let s = ProtocolState {
            total_assets: 0,
            protocol_reserves: 0,
            interest_index: 0,
            admin: None,
            user_positions: Vec::new(),
        };
        proof {
            assert(positions_view(s.user_positions@) =~= Seq::empty());
        }
        s
    }

    /// A copy of this state.
    pub fn duplicate(&self) -> (s: ProtocolState)
        ensures
            s@ == self@,
    {
        let mut positions: Vec<(AccountId, UserState)> = Vec::new();
        let mut i: usize = 0;
        while i < self.user_positions.len()
            invariant
                i <= self.user_positions@.len(),
                positions_view(positions@) == positions_view(self.user_positions@.take(i as int)),
            decreases self.user_positions@.len() - i,
        {
            let entry = (self.user_positions[i].0.duplicate(), self.user_positions[i].1);
            let ghost before = positions@;
            positions.push(entry);
            proof {
                assert(self.user_positions@.take(i + 1) == self.user_positions@.take(i as int).push(
                    self.user_positions@[i as int],
                ));
                assert(positions_view(positions@) =~= positions_view(before).push(
                    (entry.0@, entry.1),
                ));
                assert(positions_view(self.user_positions@.take(i + 1)) =~= positions_view(
                    self.user_positions@.take(i as int),
                ).push((entry.0@, entry.1)));
            }
            i = i + 1;
        }
        proof {
            assert(self.user_positions@.take(i as int) == self.user_positions@);
        }
        ProtocolState {
            total_assets: self.total_assets,
            protocol_reserves: self.protocol_reserves,
            interest_index: self.interest_index,
            admin: duplicate_opt(&self.admin),
            user_positions: positions,
        }
    }
}

/// Whether replaying `action` on `s` stays within `i128`.
pub open spec fn apply_computable(s: ProtocolView, action: StateAction) -> bool {
    match action {
        StateAction::Deposit { amount, .. } => crate::math::fits_i128(s.total_assets + amount),
        StateAction::Withdraw { amount, .. } => crate::math::fits_i128(s.total_assets - amount),
        StateAction::Repay { amount, .. } => crate::math::fits_i128(s.total_assets + amount),
        StateAction::AdvanceTime { delta } => crate::math::fits_i128(s.interest_index + delta),
        _ => true,
    }
}

/// The simulated effect of an action: deposits and repayments add to the
/// total assets, withdrawals take from them, time advances the interest
/// index by the elapsed seconds; borrows conserve the total assets, and the
/// other actions leave the simulated state as it is.
pub open spec fn applied(s: ProtocolView, action: StateAction) -> ProtocolView {
    match action {
        StateAction::Deposit { amount, .. } => ProtocolView {
            total_assets: (s.total_assets + amount) as i128,
            ..s
        },
        StateAction::Withdraw { amount, .. } => ProtocolView {
            total_assets: (s.total_assets - amount) as i128,
            ..s
        },
        StateAction::Repay { amount, .. } => ProtocolView {
            total_assets: (s.total_assets + amount) as i128,
            ..s
        },
        StateAction::AdvanceTime { delta } => ProtocolView {
            interest_index: (s.interest_index + delta) as i128,
            ..s
        },
        _ => s,
    }
}

/// The violations a protocol state shows, in the order they are checked:
/// negative total assets, negative reserves, then per user (in order) an
/// undercollateralised position with debt, a negative collateral balance and
/// a negative debt balance.
pub open spec fn state_violations(s: ProtocolView) -> Seq<ViolationText> {
    only_if(s.total_assets < 0, total_assets_negative(s.total_assets as int)) + only_if(
        s.protocol_reserves < 0,
        reserves_negative(s.protocol_reserves as int),
    ) + users_violations(s.user_positions)
}

pub open spec fn total_assets_negative(total: int) -> ViolationText {
    ("INV-002"@, "Total assets negative"@, "total_assets: "@ + int_text(total))
}

pub open spec fn reserves_negative(reserves: int) -> ViolationText {
    ("INV-003"@, "Protocol reserves negative"@, "reserves: "@ + int_text(reserves))
}

/// The violations of one user's position, in the order they are checked.
pub open spec fn user_state_violations(user: Seq<char>, u: UserState) -> Seq<ViolationText> {
    only_if(
        u.health_factor < 10_000 && u.debt_balance > 0,
        (
            "INV-001"@,
            "User undercollateralized"@,
            "user: "@ + debug_text(user) + ", health_factor: "@ + int_text(u.health_factor as int),
        ),
    ) + only_if(
        u.collateral_balance < 0,
        (
            "INV-002"@,
            "Collateral balance negative"@,
            "user: "@ + debug_text(user) + ", balance: "@ + int_text(u.collateral_balance as int),
        ),
    ) + only_if(
        u.debt_balance < 0,
        (
            "INV-003"@,
            "Debt balance negative"@,
            "user: "@ + debug_text(user) + ", balance: "@ + int_text(u.debt_balance as int),
        ),
    )
}

/// The violations of a list of user positions, user by user.
pub open spec fn users_violations(positions: Seq<(Seq<char>, UserState)>) -> Seq<ViolationText>
    decreases positions.len(),
{
    if positions.len() == 0 {
        Seq::empty()
    } else {
        users_violations(positions.drop_last()) + user_state_violations(
            positions.last().0,
            positions.last().1,
        )
    }
}

pub(crate) fn user_detail(user: &AccountId, label: &str, value: i128) -> (s: String)
    ensures
        s@ == "user: "@ + debug_text(user@) + label@ + int_text(value as int),
{
    let mut s = String::from_str("user: ");
    let shown = user.debug_text();
    s.append(shown.as_str());
    s.append(label);
    append_i128(&mut s, value);
    s
}

fn push_violation(out: &mut Vec<InvariantViolation>, v: InvariantViolation)
    ensures
        violations_view(final(out)@) == violations_view(old(out)@).push(v@),
{
    out.push(v);
    proof {
        assert(violations_view(out@) =~= violations_view(old(out)@).push(v@));
    }
}

/// Replays `action` on a captured state.
pub fn apply_action(state: &ProtocolState, action: &StateAction) -> (s: ProtocolState)
    requires
        apply_computable(state@, *action),
    ensures
        s@ == applied(state@, *action),
{
    let mut new_state = state.duplicate();
    match action {
        StateAction::Deposit { amount, .. } => {
            new_state.total_assets = new_state.total_assets + *amount;
        },
        StateAction::Withdraw { amount, .. } => {
            new_state.total_assets = new_state.total_assets - *amount;
        },
        StateAction::Borrow { .. } => {},
        StateAction::Repay { amount, .. } => {
            new_state.total_assets = new_state.total_assets + *amount;
        },
        StateAction::AdvanceTime { delta } => {
            new_state.interest_index = new_state.interest_index + (*delta as i128);
        },
        _ => {},
    }
    new_state
}

/// Checks the state invariants of a captured state and returns every
/// violation found, in the order of `state_violations`.
pub fn check_invariants(state: &ProtocolState) -> (r: Vec<InvariantViolation>)
    ensures
        violations_view(r@) == state_violations(state@),
{
    let mut violations: Vec<InvariantViolation> = Vec::new();
    proof {
        assert(violations_view(violations@) =~= Seq::<ViolationText>::empty());
    }
    if state.total_assets < 0 {
        push_violation(
            &mut violations,
            InvariantViolation {
                invariant_id: "INV-002",
                message: "Total assets negative",
                detail: crate::text::labelled_i128("total_assets: ", state.total_assets),
            },
        );
    }
    if state.protocol_reserves < 0 {
        push_violation(
            &mut violations,
            InvariantViolation {
                invariant_id: "INV-003",
                message: "Protocol reserves negative",
                detail: crate::text::labelled_i128("reserves: ", state.protocol_reserves),
            },
        );
    }
    let ghost base = violations_view(violations@);
    proof {
        assert(base == only_if(state.total_assets < 0, total_assets_negative(state.total_assets as int))
            + only_if(state.protocol_reserves < 0, reserves_negative(state.protocol_reserves as int)));
    }
    let mut i: usize = 0;
    while i < state.user_positions.len()
        invariant
            i <= state.user_positions@.len(),
            violations_view(violations@) == base + users_violations(
                positions_view(state.user_positions@).take(i as int),
            ),
        decreases state.user_positions@.len() - i,
    {
        let user = &state.user_positions[i].0;
        let user_state = state.user_positions[i].1;
        let ghost before = violations_view(violations@);
        if user_state.health_factor < 10_000 && user_state.debt_balance > 0 {
            push_violation(
                &mut violations,
                InvariantViolation {
                    invariant_id: "INV-001",
                    message: "User undercollateralized",
                    detail: user_detail(user, ", health_factor: ", user_state.health_factor),
                },
            );
        }
        if user_state.collateral_balance < 0 {
            push_violation(
                &mut violations,
                InvariantViolation {
                    invariant_id: "INV-002",
                    message: "Collateral balance negative",
                    detail: user_detail(user, ", balance: ", user_state.collateral_balance),
                },
            );
        }
        if user_state.debt_balance < 0 {
            push_violation(
                &mut violations,
                InvariantViolation {
                    invariant_id: "INV-003",
                    message: "Debt balance negative",
                    detail: user_detail(user, ", balance: ", user_state.debt_balance),
                },
            );
        }
        proof {
            let pv = positions_view(state.user_positions@);
            assert(pv.take(i + 1).drop_last() =~= pv.take(i as int));
            assert(pv.take(i + 1).last() == (user@, user_state));
            assert(violations_view(violations@) =~= before + user_state_violations(user@, user_state));
        }
        i = i + 1;
    }
    proof {
        assert(positions_view(state.user_positions@).take(i as int) =~= positions_view(
            state.user_positions@,
        ));
    }
    violations
}

/// The only invariant a freshly captured state is re-checked against when
/// reproducing a violation: the total assets must not be negative.
pub fn check_state_invariants(state: &ProtocolState) -> (r: Vec<InvariantViolation>)
    ensures
        violations_view(r@) == only_if(
            state.total_assets < 0,
            total_assets_negative(state.total_assets as int),
        ),
{
    let mut violations: Vec<InvariantViolation> = Vec::new();
    proof {
        assert(violations_view(violations@) =~= Seq::<ViolationText>::empty());
    }
    if state.total_assets < 0 {
        push_violation(
            &mut violations,
            InvariantViolation {
                invariant_id: "INV-002",
                message: "Total assets negative",
                detail: crate::text::labelled_i128("total_assets: ", state.total_assets),
            },
        );
    }
    violations
}

/// Decides whether a replayed transition reproduced a violation, given the
/// state captured after resetting to its pre-state and replaying its
/// action: it did exactly when the captured state breaks a state invariant;
/// otherwise the failure to reproduce is reported as `REPRO-001`.
pub fn reproduce_violation(captured: &ProtocolState) -> (r: Result<(), InvariantViolation>)
    ensures
        r is Ok <==> captured.total_assets < 0,
        r matches Err(v) ==> v@ == (
            "REPRO-001"@,
            "Failed to reproduce violation"@,
            "No violations found after reproduction"@,
        ),
{
    let violations = check_state_invariants(captured);
    proof {
        assert(violations_view(violations@).len() == violations@.len());
    }
    if violations.len() == 0 {
        return Err(
            InvariantViolation {
                invariant_id: "REPRO-001",
                message: "Failed to reproduce violation",
                detail: String::from_str("No violations found after reproduction"),
            },
        );
    }
    Ok(())
}

/// The amounts the explorer tries for each amount-carrying action.
pub open spec fn trial_amounts() -> Seq<i128> {
    seq![1000i128, 10000i128, 100000i128]
}

/// The kinds of single-asset actions the explorer generates.
#[derive(Clone, Copy, PartialEq, Eq, Structural)]
pub enum ActionKind {
    Deposit,
    Withdraw,
    Repay,
}

/// The action of a given kind by `user` on `asset` for `amount`.
pub open spec fn kind_action(kind: ActionKind, user: AccountId, asset: AccountId, amount: i128) -> StateAction {
    match kind {
        ActionKind::Deposit => StateAction::Deposit { user, asset, amount },
        ActionKind::Withdraw => StateAction::Withdraw { user, asset, amount },
        ActionKind::Repay => StateAction::Repay { user, asset, amount },
    }
}

/// Every action of one kind: for each user, for each asset, for each trial
/// amount, in that order.
pub open spec fn kind_actions(kind: ActionKind, users: Seq<AccountId>, assets: Seq<AccountId>) -> Seq<
    StateAction,
> {
    users.map_values(
        |u: AccountId|
            assets.map_values(
                |a: AccountId| trial_amounts().map_values(|m: i128| kind_action(kind, u, a, m)),
            ).flatten(),
    ).flatten()
}

/// The borrows of `user` against one debt asset: for each other asset as
/// collateral, for each trial amount.
pub open spec fn borrows_for(user: AccountId, debt: AccountId, assets: Seq<AccountId>) -> Seq<StateAction> {
    assets.map_values(
        |c: AccountId|
            if debt@ != c@ {
                trial_amounts().map_values(
                    |m: i128|
                        StateAction::Borrow { user, debt_asset: debt, collateral_asset: c, amount: m },
                )
            } else {
                Seq::empty()
            },
    ).flatten()
}

/// Every borrow: for each user, each debt asset, each distinct collateral
/// asset, each trial amount.
pub open spec fn borrow_actions(users: Seq<AccountId>, assets: Seq<AccountId>) -> Seq<StateAction> {
    users.map_values(
        |u: AccountId| assets.map_values(|d: AccountId| borrows_for(u, d, assets)).flatten(),
    ).flatten()
}

/// The time advances the explorer tries.
pub open spec fn time_actions() -> Seq<StateAction> {
    seq![
        StateAction::AdvanceTime { delta: 100 },
        StateAction::AdvanceTime { delta: 1000 },
        StateAction::AdvanceTime { delta: 10000 },
    ]
}

/// All actions the explorer generates: none without users or assets;
/// otherwise deposits, withdrawals, borrows, repayments and time advances.
pub open spec fn all_actions(users: Seq<AccountId>, assets: Seq<AccountId>) -> Seq<StateAction> {
    if users.len() == 0 || assets.len() == 0 {
        Seq::empty()
    } else {
        kind_actions(ActionKind::Deposit, users, assets) + kind_actions(ActionKind::Withdraw, users, assets)
            + borrow_actions(users, assets) + kind_actions(ActionKind::Repay, users, assets)
            + time_actions()
    }
}

/// Whether an action moves the simulated state by at most the largest trial
/// amount (or time step).
pub open spec fn action_bounded(a: StateAction) -> bool {
    match a {
        StateAction::Deposit { amount, .. } => 0 <= amount <= 100000,
        StateAction::Withdraw { amount, .. } => 0 <= amount <= 100000,
        StateAction::Repay { amount, .. } => 0 <= amount <= 100000,
        StateAction::AdvanceTime { delta } => delta <= 10000,
        _ => true,
    }
}

/// Whether every action from index `from` on is bounded.
pub open spec fn all_bounded_from(s: Seq<StateAction>, from: int) -> bool {
    forall|j: int| from <= j < s.len() ==> action_bounded(#[trigger] s[j])
}

fn make_kind_action(kind: ActionKind, user: &AccountId, asset: &AccountId, amount: i128) -> (a: StateAction)
    ensures
        a == kind_action(kind, *user, *asset, amount),
{
    match kind {
        ActionKind::Deposit => StateAction::Deposit {
            user: user.duplicate(),
            asset: asset.duplicate(),
            amount,
        },
        ActionKind::Withdraw => StateAction::Withdraw {
            user: user.duplicate(),
            asset: asset.duplicate(),
            amount,
        },
        ActionKind::Repay => StateAction::Repay {
            user: user.duplicate(),
            asset: asset.duplicate(),
            amount,
        },
    }
}

fn push_kind_amounts(out: &mut Vec<StateAction>, kind: ActionKind, user: &AccountId, asset: &AccountId)
    ensures
        final(out)@ == old(out)@ + trial_amounts().map_values(
            |m: i128| kind_action(kind, *user, *asset, m),
        ),
        all_bounded_from(old(out)@, 0) ==> all_bounded_from(final(out)@, 0),
{
    out.push(make_kind_action(kind, user, asset, 1000));
    out.push(make_kind_action(kind, user, asset, 10000));
    out.push(make_kind_action(kind, user, asset, 100000));
    proof {
        assert(out@ =~= old(out)@ + trial_amounts().map_values(
            |m: i128| kind_action(kind, *user, *asset, m),
        ));
    }
}

fn push_kind_assets(out: &mut Vec<StateAction>, kind: ActionKind, user: &AccountId, assets: &Vec<AccountId>)
    ensures
        final(out)@ == old(out)@ + assets@.map_values(
            |a: AccountId| trial_amounts().map_values(|m: i128| kind_action(kind, *user, a, m)),
        ).flatten(),
        all_bounded_from(old(out)@, 0) ==> all_bounded_from(final(out)@, 0),
{
    let ghost f = |a: AccountId| trial_amounts().map_values(|m: i128| kind_action(kind, *user, a, m));
    let mut i: usize = 0;
    while i < assets.len()
        invariant
            i <= assets@.len(),
            f == (|a: AccountId| trial_amounts().map_values(|m: i128| kind_action(kind, *user, a, m))),
            out@ == old(out)@ + assets@.take(i as int).map_values(f).flatten(),
            all_bounded_from(old(out)@, 0) ==> all_bounded_from(out@, 0),
        decreases assets@.len() - i,
    {
        let ghost before = out@;
        push_kind_amounts(out, kind, user, &assets[i]);
        proof {
            assert(assets@.take(i + 1).map_values(f) =~= assets@.take(i as int).map_values(f).push(
                f(assets@[i as int]),
            ));
            assets@.take(i as int).map_values(f).lemma_flatten_push(f(assets@[i as int]));
        }
        i = i + 1;
    }
    proof {
        assert(assets@.take(i as int) =~= assets@);
    }
}

pub(crate) fn push_kind_actions(out: &mut Vec<StateAction>, kind: ActionKind, users: &Vec<AccountId>, assets: &Vec<AccountId>)
    ensures
        final(out)@ == old(out)@ + kind_actions(kind, users@, assets@),
        all_bounded_from(old(out)@, 0) ==> all_bounded_from(final(out)@, 0),
{
    let ghost f = |u: AccountId|
        assets@.map_values(
            |a: AccountId| trial_amounts().map_values(|m: i128| kind_action(kind, u, a, m)),
        ).flatten();
    let mut i: usize = 0;
    while i < users.len()
        invariant
            i <= users@.len(),
            f == (|u: AccountId|
                assets@.map_values(
                    |a: AccountId| trial_amounts().map_values(|m: i128| kind_action(kind, u, a, m)),
                ).flatten()),
            out@ == old(out)@ + users@.take(i as int).map_values(f).flatten(),
            all_bounded_from(old(out)@, 0) ==> all_bounded_from(out@, 0),
        decreases users@.len() - i,
    {
        push_kind_assets(out, kind, &users[i], assets);
        proof {
            assert(users@.take(i + 1).map_values(f) =~= users@.take(i as int).map_values(f).push(
                f(users@[i as int]),
            ));
            users@.take(i as int).map_values(f).lemma_flatten_push(f(users@[i as int]));
        }
        i = i + 1;
    }
    proof {
        assert(users@.take(i as int) =~= users@);
    }
}

fn push_borrows_for(out: &mut Vec<StateAction>, user: &AccountId, debt: &AccountId, assets: &Vec<AccountId>)
    ensures
        final(out)@ == old(out)@ + borrows_for(*user, *debt, assets@),
        all_bounded_from(old(out)@, 0) ==> all_bounded_from(final(out)@, 0),
{
    let ghost f = |c: AccountId|
        if debt@ != c@ {
            trial_amounts().map_values(
                |m: i128| StateAction::Borrow { user: *user, debt_asset: *debt, collateral_asset: c, amount: m },
            )
        } else {
            Seq::empty()
        };
    let mut i: usize = 0;
    while i < assets.len()
        invariant
            i <= assets@.len(),
            f == (|c: AccountId|
                if debt@ != c@ {
                    trial_amounts().map_values(
                        |m: i128| StateAction::Borrow { user: *user, debt_asset: *debt, collateral_asset: c, amount: m },
                    )
                } else {
                    Seq::empty()
                }),
            out@ == old(out)@ + assets@.take(i as int).map_values(f).flatten(),
            all_bounded_from(old(out)@, 0) ==> all_bounded_from(out@, 0),
        decreases assets@.len() - i,
    {
        let c = &assets[i];
        if !debt.same(c) {
            out.push(StateAction::Borrow { user: user.duplicate(), debt_asset: debt.duplicate(), collateral_asset: c.duplicate(), amount: 1000 });
            out.push(StateAction::Borrow { user: user.duplicate(), debt_asset: debt.duplicate(), collateral_asset: c.duplicate(), amount: 10000 });
            out.push(StateAction::Borrow { user: user.duplicate(), debt_asset: debt.duplicate(), collateral_asset: c.duplicate(), amount: 100000 });
        }
        proof {
            assert(assets@.take(i + 1).map_values(f) =~= assets@.take(i as int).map_values(f).push(
                f(assets@[i as int]),
            ));
            assets@.take(i as int).map_values(f).lemma_flatten_push(f(assets@[i as int]));
        }
        i = i + 1;
    }
    proof {
        assert(assets@.take(i as int) =~= assets@);
    }
}

pub(crate) fn push_borrow_actions(out: &mut Vec<StateAction>, users: &Vec<AccountId>, assets: &Vec<AccountId>)
    ensures
        final(out)@ == old(out)@ + borrow_actions(users@, assets@),
        all_bounded_from(old(out)@, 0) ==> all_bounded_from(final(out)@, 0),
{
    let ghost g = |u: AccountId| assets@.map_values(|d: AccountId| borrows_for(u, d, assets@)).flatten();
    let mut i: usize = 0;
    while i < users.len()
        invariant
            i <= users@.len(),
            g == (|u: AccountId| assets@.map_values(|d: AccountId| borrows_for(u, d, assets@)).flatten()),
            out@ == old(out)@ + users@.take(i as int).map_values(g).flatten(),
            all_bounded_from(old(out)@, 0) ==> all_bounded_from(out@, 0),
        decreases users@.len() - i,
    {
        let user = &users[i];
        let ghost f = |d: AccountId| borrows_for(*user, d, assets@);
        let ghost start = out@;
        let mut j: usize = 0;
        while j < assets.len()
            invariant
                j <= assets@.len(),
                f == (|d: AccountId| borrows_for(*user, d, assets@)),
                out@ == start + assets@.take(j as int).map_values(f).flatten(),
                all_bounded_from(start, 0) ==> all_bounded_from(out@, 0),
            decreases assets@.len() - j,
        {
            push_borrows_for(out, user, &assets[j], assets);
            proof {
                assert(assets@.take(j + 1).map_values(f) =~= assets@.take(j as int).map_values(f).push(
                    f(assets@[j as int]),
                ));
                assets@.take(j as int).map_values(f).lemma_flatten_push(f(assets@[j as int]));
            }
            j = j + 1;
        }
        proof {
            assert(assets@.take(j as int) =~= assets@);
            assert(assets@.map_values(f) =~= assets@.map_values(|d: AccountId| borrows_for(users@[i as int], d, assets@)));
            assert(users@.take(i + 1).map_values(g) =~= users@.take(i as int).map_values(g).push(
                g(users@[i as int]),
            ));
            users@.take(i as int).map_values(g).lemma_flatten_push(g(users@[i as int]));
        }
        i = i + 1;
    }
    proof {
        assert(users@.take(i as int) =~= users@);
    }
}

/// Borrowing conserves the simulated state: money is moved, not created.
pub proof fn lemma_borrow_conserves_state(
    s: ProtocolView,
    user: AccountId,
    debt_asset: AccountId,
    collateral_asset: AccountId,
    amount: i128,
)
    ensures
        applied(s, StateAction::Borrow { user, debt_asset, collateral_asset, amount }) == s,
{
}

/// Withdrawing what was just deposited restores the simulated state.
pub proof fn lemma_deposit_then_withdraw_restores(
    s: ProtocolView,
    user: AccountId,
    asset: AccountId,
    amount: i128,
)
    requires
        apply_computable(s, StateAction::Deposit { user, asset, amount }),
    ensures
        applied(
            applied(s, StateAction::Deposit { user, asset, amount }),
            StateAction::Withdraw { user, asset, amount },
        ) == s,
{
}

proof fn lemma_concat_contains<T>(a: Seq<T>, b: Seq<T>, x: T)
    ensures
        (a + b).contains(x) <==> a.contains(x) || b.contains(x),
{
    if (a + b).contains(x) {
        let k = choose|k: int| 0 <= k < (a + b).len() && (a + b)[k] == x;
        if k < a.len() {
            assert(a[k] == x);
        } else {
            assert(b[k - a.len()] == x);
        }
    }
    if a.contains(x) {
        let k = choose|k: int| 0 <= k < a.len() && a[k] == x;
        assert((a + b)[k] == x);
    }
    if b.contains(x) {
        let k = choose|k: int| 0 <= k < b.len() && b[k] == x;
        assert((a + b)[a.len() + k] == x);
    }
}

proof fn lemma_user_entry_in_users(p: Seq<(Seq<char>, UserState)>, i: int, x: ViolationText)
    requires
        0 <= i < p.len(),
        user_state_violations(p[i].0, p[i].1).contains(x),
    ensures
        users_violations(p).contains(x),
    decreases p.len(),
{
    let q = p.drop_last();
    let tail = user_state_violations(p.last().0, p.last().1);
    lemma_concat_contains(users_violations(q), tail, x);
    if i < p.len() - 1 {
        assert(q[i] == p[i]);
        lemma_user_entry_in_users(q, i, x);
    }
}

proof fn lemma_users_entry_from_a_user(p: Seq<(Seq<char>, UserState)>, x: ViolationText)
    requires
        users_violations(p).contains(x),
    ensures
        exists|i: int| 0 <= i < p.len() && user_state_violations(p[i].0, p[i].1).contains(x),
    decreases p.len(),
{
    if p.len() == 0 {
        assert(users_violations(p).len() == 0);
    } else {
        let q = p.drop_last();
        let tail = user_state_violations(p.last().0, p.last().1);
        lemma_concat_contains(users_violations(q), tail, x);
        if users_violations(q).contains(x) {
            lemma_users_entry_from_a_user(q, x);
            let i = choose|i: int| 0 <= i < q.len() && user_state_violations(q[i].0, q[i].1).contains(x);
            assert(q[i] == p[i]);
        } else {
            assert(p[p.len() - 1] == p.last());
        }
    }
}

/// The report of a negative debt balance for `user`.
pub open spec fn negative_debt_report(user: Seq<char>, debt_balance: int) -> ViolationText {
    ("INV-003"@, "Debt balance negative"@, "user: "@ + debug_text(user) + ", balance: "@ + int_text(debt_balance))
}

/// Every user whose debt balance is negative is reported, with the
/// balance, whatever else their position shows.
pub proof fn lemma_negative_debt_is_reported(s: ProtocolView, i: int)
    requires
        0 <= i < s.user_positions.len(),
        s.user_positions[i].1.debt_balance < 0,
    ensures
        state_violations(s).contains(
            negative_debt_report(s.user_positions[i].0, s.user_positions[i].1.debt_balance as int),
        ),
{
    let user = s.user_positions[i].0;
    let u = s.user_positions[i].1;
    let x = negative_debt_report(user, u.debt_balance as int);
    let a = only_if(
        u.health_factor < 10_000 && u.debt_balance > 0,
        (
            "INV-001"@,
            "User undercollateralized"@,
            "user: "@ + debug_text(user) + ", health_factor: "@ + int_text(u.health_factor as int),
        ),
    ) + only_if(
        u.collateral_balance < 0,
        (
            "INV-002"@,
            "Collateral balance negative"@,
            "user: "@ + debug_text(user) + ", balance: "@ + int_text(u.collateral_balance as int),
        ),
    );
    assert(user_state_violations(user, u) == a + seq![x]);
    lemma_concat_contains(a, seq![x], x);
    assert(seq![x][0] == x);
    lemma_user_entry_in_users(s.user_positions, i, x);
    let head = only_if(s.total_assets < 0, total_assets_negative(s.total_assets as int)) + only_if(
        s.protocol_reserves < 0,
        reserves_negative(s.protocol_reserves as int),
    );
    lemma_concat_contains(head, users_violations(s.user_positions), x);
}

/// A negative-debt report is only ever made for a user whose debt balance
/// is negative, and carries that user and balance.
pub proof fn lemma_debt_report_only_for_negative_debt(s: ProtocolView, x: ViolationText)
    requires
        state_violations(s).contains(x),
        x.1 == "Debt balance negative"@,
    ensures
        exists|i: int|
            0 <= i < s.user_positions.len() && s.user_positions[i].1.debt_balance < 0 && x
                == negative_debt_report(s.user_positions[i].0, s.user_positions[i].1.debt_balance as int),
{
    reveal_strlit("Debt balance negative");
    reveal_strlit("Total assets negative");
    reveal_strlit("Protocol reserves negative");
    reveal_strlit("User undercollateralized");
    reveal_strlit("Collateral balance negative");
    assert("Debt balance negative"@ != "Total assets negative"@) by {
        assert("Debt balance negative"@[0] != "Total assets negative"@[0]);
    }
    assert("Debt balance negative"@.len() != "Protocol reserves negative"@.len());
    assert("Debt balance negative"@.len() != "User undercollateralized"@.len());
    assert("Debt balance negative"@.len() != "Collateral balance negative"@.len());
    let t = only_if(s.total_assets < 0, total_assets_negative(s.total_assets as int));
    let r = only_if(s.protocol_reserves < 0, reserves_negative(s.protocol_reserves as int));
    lemma_concat_contains(t + r, users_violations(s.user_positions), x);
    lemma_concat_contains(t, r, x);
    if t.contains(x) {
        assert(t[0] == x);
    }
    if r.contains(x) {
        assert(r[0] == x);
    }
    lemma_users_entry_from_a_user(s.user_positions, x);
    let i = choose|i: int|
        0 <= i < s.user_positions.len() && user_state_violations(
            s.user_positions[i].0,
            s.user_positions[i].1,
        ).contains(x);
    let user = s.user_positions[i].0;
    let u = s.user_positions[i].1;
    let a = only_if(
        u.health_factor < 10_000 && u.debt_balance > 0,
        (
            "INV-001"@,
            "User undercollateralized"@,
            "user: "@ + debug_text(user) + ", health_factor: "@ + int_text(u.health_factor as int),
        ),
    );
    let b = only_if(
        u.collateral_balance < 0,
        (
            "INV-002"@,
            "Collateral balance negative"@,
            "user: "@ + debug_text(user) + ", balance: "@ + int_text(u.collateral_balance as int),
        ),
    );
    let c = only_if(u.debt_balance < 0, negative_debt_report(user, u.debt_balance as int));
    assert(user_state_violations(user, u) == a + b + c);
    lemma_concat_contains(a + b, c, x);
    lemma_concat_contains(a, b, x);
    if a.contains(x) {
        assert(a[0] == x);
    }
    if b.contains(x) {
        assert(b[0] == x);
    }
    assert(c.contains(x));
    assert(c[0] == x);
}

/// The report of an undercollateralised position of `user` with debt.
pub open spec fn undercollateralized_report(user: Seq<char>, health_factor: int) -> ViolationText {
    ("INV-001"@, "User undercollateralized"@, "user: "@ + debug_text(user) + ", health_factor: "@ + int_text(health_factor))
}

/// The report of a negative collateral balance for `user`.
pub open spec fn negative_collateral_report(user: Seq<char>, collateral_balance: int) -> ViolationText {
    ("INV-002"@, "Collateral balance negative"@, "user: "@ + debug_text(user) + ", balance: "@ + int_text(collateral_balance))
}

/// A user's position is reported exactly for what is wrong with it: an
/// undercollateralised position with debt (health factor below 10_000), a
/// negative collateral balance, a negative debt balance, each at most once
/// and in that order, and nothing else.
pub proof fn lemma_user_reports(user: Seq<char>, u: UserState)
    ensures
        user_state_violations(user, u) == only_if(
            u.health_factor < 10_000 && u.debt_balance > 0,
            undercollateralized_report(user, u.health_factor as int),
        ) + only_if(u.collateral_balance < 0, negative_collateral_report(user, u.collateral_balance as int))
            + only_if(u.debt_balance < 0, negative_debt_report(user, u.debt_balance as int)),
        user_state_violations(user, u).len() == (if u.health_factor < 10_000 && u.debt_balance > 0 {
            1int
        } else {
            0
        }) + (if u.collateral_balance < 0 {
            1int
        } else {
            0
        }) + (if u.debt_balance < 0 {
            1int
        } else {
            0
        }),
{
}

/// Every report of a user's position is among the state's reports, as are
/// negative total assets and negative reserves.
pub proof fn lemma_reports_reach_the_state(s: ProtocolView, i: int, x: ViolationText)
    requires
        0 <= i < s.user_positions.len(),
        user_state_violations(s.user_positions[i].0, s.user_positions[i].1).contains(x),
    ensures
        state_violations(s).contains(x),
        s.total_assets < 0 ==> state_violations(s).contains(total_assets_negative(s.total_assets as int)),
        s.protocol_reserves < 0 ==> state_violations(s).contains(reserves_negative(s.protocol_reserves as int)),
{
    lemma_user_entry_in_users(s.user_positions, i, x);
    let t = only_if(s.total_assets < 0, total_assets_negative(s.total_assets as int));
    let r = only_if(s.protocol_reserves < 0, reserves_negative(s.protocol_reserves as int));
    lemma_concat_contains(t + r, users_violations(s.user_positions), x);
    if s.total_assets < 0 {
        let y = total_assets_negative(s.total_assets as int);
        assert(t[0] == y);
        lemma_concat_contains(t, r, y);
        lemma_concat_contains(t + r, users_violations(s.user_positions), y);
    }
    if s.protocol_reserves < 0 {
        let y = reserves_negative(s.protocol_reserves as int);
        assert(r[0] == y);
        lemma_concat_contains(t, r, y);
        lemma_concat_contains(t + r, users_violations(s.user_positions), y);
    }
}

} // verus!
