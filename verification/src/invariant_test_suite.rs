//! The invariant test suite: basic per-user and protocol-level checks on
//! readings of the live protocol, edge-case checks, and systematic
//! exploration of action sequences. Timing, confidence scores and the text
//! report, which rest on wall-clock time and floating point, are assembled by
//! the caller from what these functions return.
use vstd::prelude::*;
use crate::address::{AccountId, debug_text, zero_key, opt_view};
use crate::explorer::{
    StateMachineExplorer, StateTransition, TransitionView, ExplorerView, explorer_run_length,
    explorer_sequences, replay_all, replay_computable, transitions_view,
};
use crate::invariants::{
    ExemptionFlags, InvariantViolation, ViolationText, assert_all_for_user, check_inv_010_total_assets_monotonic,
    check_inv_012_interest_monotonicity, check_inv_013_reserve_monotonic, check_inv_014_access_control,
    inv_010, inv_012, inv_013, inv_014, only_if, push_failure, user_violations, violations_view,
};
use crate::state_machine::{ProtocolState, ProtocolView, StateAction, UserState, user_detail};
use crate::text::{append_i128, int_text};

verus! {

/// How the suite runs.
#[derive(Debug, Clone, Copy)]
pub struct InvariantTestConfig {
    pub max_depth: usize,
    pub confidence_threshold: u64,
    pub min_execution_count: u64,
    pub enable_exhaustive_testing: bool,
    pub known_exemptions: ExemptionFlags,
}

impl Default for InvariantTestConfig {
    fn default() -> (c: Self)
        ensures
            c.max_depth == 4,
            c.confidence_threshold == 10000,
            c.min_execution_count == 1000,
            !c.enable_exhaustive_testing,
            !c.known_exemptions.rate_reset_in_progress,
            !c.known_exemptions.oracle_fallback_active,
            !c.known_exemptions.flash_loan_context,
    {
        InvariantTestConfig {
            max_depth: 4,
            confidence_threshold: 10000,
            min_execution_count: 1000,
            enable_exhaustive_testing: false,
            known_exemptions: ExemptionFlags::default(),
        }
    }
}

/// The verdict of a suite run.
#[derive(Debug, Clone, Copy, PartialEq, Eq, Structural)]
pub enum TestStatus {
    Passed,
    Failed,
    Inconclusive,
    Timeout,
}

/// The verdict of a suite run with its message and recommendations.
#[derive(Debug, Clone)]
pub struct TestSummary {
    pub status: TestStatus,
    pub message: String,
    pub recommendations: Vec<String>,
}

/// What one phase of the suite executed and found.
#[derive(Debug)]
pub struct PhaseOutcome {
    pub total_executions: u64,
    pub violations_found: Vec<InvariantViolation>,
}

/// What the exploration phase executed and found, with the replayed steps.
#[derive(Debug)]
pub struct ExplorationOutcome {
    pub total_executions: u64,
    pub violations_found: Vec<InvariantViolation>,
    pub action_types_covered: Vec<String>,
    pub reproduction_steps: Vec<StateTransition>,
}

/// The configuration and the users and assets of a suite.
pub struct SuiteView {
    pub config: InvariantTestConfig,
    pub users: Seq<AccountId>,
    pub assets: Seq<AccountId>,
}

/// Runs the invariant checks over a set of users and assets.
pub struct InvariantTestSuite {
    config: InvariantTestConfig,
    users: Vec<AccountId>,
    assets: Vec<AccountId>,
}

impl View for InvariantTestSuite {
    type V = SuiteView;

    closed spec fn view(&self) -> SuiteView {
        SuiteView { config: self.config, users: self.users@, assets: self.assets@ }
    }
}

/// The strkeys of a list of addresses.
pub open spec fn keys(v: Seq<AccountId>) -> Seq<Seq<char>> {
    v.map_values(|a: AccountId| a@)
}

/// The findings of a per-user check over the first `n` users, user by user.
pub open spec fn each_user(n: nat, f: spec_fn(int) -> Seq<ViolationText>) -> Seq<ViolationText> {
    Seq::new(n, f).flatten()
}

proof fn lemma_each_user_step(n: nat, f: spec_fn(int) -> Seq<ViolationText>)
    ensures
        each_user(n + 1, f) == each_user(n, f) + f(n as int),
{
    assert(Seq::new(n + 1, f) =~= Seq::new(n, f).push(f(n as int)));
    Seq::new(n, f).lemma_flatten_push(f(n as int));
}

/// The findings of the basic checks: every per-user invariant on each
/// reading, then total assets, interest index (unless a rate reset or the
/// oracle fallback exempts it) and reserves must not have fallen below the
/// baseline, and the admin must still be the baseline's
/// (an admin unset in both readings is unchanged).
pub open spec fn basic_violations(
    readings: Seq<UserState>,
    liquidation_paused: bool,
    baseline: ProtocolView,
    current: ProtocolView,
    exemptions: ExemptionFlags,
) -> Seq<ViolationText> {
    each_user(readings.len(), |i: int| user_violations(readings[i], liquidation_paused))
        + only_if(
        current.total_assets < baseline.total_assets,
        inv_010(baseline.total_assets as int, current.total_assets as int),
    ) + only_if(
        !exemptions.rate_reset_in_progress && !exemptions.oracle_fallback_active
            && current.interest_index < baseline.interest_index,
        inv_012(baseline.interest_index as int, current.interest_index as int),
    ) + only_if(
        current.protocol_reserves < baseline.protocol_reserves,
        inv_013(baseline.protocol_reserves as int, current.protocol_reserves as int),
    ) + only_if(current.admin != baseline.admin, inv_014(baseline.admin, current.admin))
}

/// The per-user findings over a list of readings, user by user.
pub open spec fn readings_violations(readings: Seq<UserState>, liquidation_paused: bool) -> Seq<
    ViolationText,
> {
    each_user(readings.len(), |i: int| user_violations(readings[i], liquidation_paused))
}

/// A user with no debt must not show an unhealthy health factor.
pub open spec fn solvency_edge(user: Seq<char>, u: UserState) -> Seq<ViolationText> {
    only_if(
        u.debt_balance == 0 && u.health_factor < 10_000,
        (
            "INV-001-EDGE-1"@,
            "Zero debt user has unhealthy health factor"@,
            "user: "@ + debug_text(user) + ", health_factor: "@ + int_text(u.health_factor as int),
        ),
    )
}

/// No balance may ever be negative.
pub open spec fn negative_balance_edge(user: Seq<char>, u: UserState) -> Seq<ViolationText> {
    only_if(
        u.collateral_balance < 0,
        (
            "INV-002-EDGE-1"@,
            "Negative collateral balance detected"@,
            "user: "@ + debug_text(user) + ", balance: "@ + int_text(u.collateral_balance as int),
        ),
    ) + only_if(
        u.debt_balance < 0,
        (
            "INV-003-EDGE-1"@,
            "Negative debt balance detected"@,
            "user: "@ + debug_text(user) + ", balance: "@ + int_text(u.debt_balance as int),
        ),
    )
}

/// While paused, every position must be valid.
pub open spec fn paused_position_edge(user: Seq<char>, u: UserState) -> Seq<ViolationText> {
    only_if(
        u.collateral_balance < 0 || u.debt_balance < 0,
        (
            "INV-007-EDGE-1"@,
            "Invalid position while paused"@,
            "user: "@ + debug_text(user) + ", collateral: "@ + int_text(u.collateral_balance as int) + ", debt: "@
                + int_text(u.debt_balance as int),
        ),
    )
}

/// A configured admin must not be the all-zero (unset) address.
pub open spec fn admin_edge(admin: Option<Seq<char>>) -> Seq<ViolationText> {
    match admin {
        Some(a) => only_if(
            a == zero_key(),
            (
                "INV-006-EDGE-1"@,
                "Admin address is default (unset)"@,
                "Admin should be properly configured"@,
            ),
        ),
        None => Seq::empty(),
    }
}

/// The findings of the edge-case checks: the solvency edge for each user,
/// then the balance edge for each user, then (while paused) the position
/// edge for each user, then the admin edge.
pub open spec fn edge_violations(
    users: Seq<Seq<char>>,
    readings: Seq<UserState>,
    paused: bool,
    admin: Option<Seq<char>>,
) -> Seq<ViolationText> {
    each_user(readings.len(), |i: int| solvency_edge(users[i], readings[i])) + each_user(
        readings.len(),
        |i: int| negative_balance_edge(users[i], readings[i]),
    ) + (if paused {
        each_user(readings.len(), |i: int| paused_position_edge(users[i], readings[i]))
    } else {
        Seq::empty()
    }) + admin_edge(admin)
}

/// The index of an action's kind, in declaration order.
pub open spec fn action_tag(a: StateAction) -> u8 {
    match a {
        StateAction::Deposit { .. } => 0,
        StateAction::Withdraw { .. } => 1,
        StateAction::Borrow { .. } => 2,
        StateAction::Repay { .. } => 3,
        StateAction::DepositCollateral { .. } => 4,
        StateAction::SetPause { .. } => 5,
        StateAction::SetLiquidationThreshold { .. } => 6,
        StateAction::SetOraclePrice { .. } => 7,
        StateAction::AdvanceTime { .. } => 8,
    }
}

/// The name of an action kind.
pub open spec fn tag_name(t: u8) -> Seq<char> {
    if t == 0 {
        "Deposit"@
    } else if t == 1 {
        "Withdraw"@
    } else if t == 2 {
        "Borrow"@
    } else if t == 3 {
        "Repay"@
    } else if t == 4 {
        "DepositCollateral"@
    } else if t == 5 {
        "SetPause"@
    } else if t == 6 {
        "SetLiquidationThreshold"@
    } else if t == 7 {
        "SetOraclePrice"@
    } else {
        "AdvanceTime"@
    }
}

/// The distinct values of `tags`, in order of first occurrence.
pub open spec fn first_seen(tags: Seq<u8>) -> Seq<u8>
    decreases tags.len(),
{
    if tags.len() == 0 {
        Seq::empty()
    } else {
        let prev = first_seen(tags.drop_last());
        if prev.contains(tags.last()) {
            prev
        } else {
            prev.push(tags.last())
        }
    }
}

/// The names of the action kinds among `steps`, each once, in order of
/// first occurrence.
pub open spec fn covered_action_types(steps: Seq<TransitionView>) -> Seq<Seq<char>> {
    first_seen(steps.map_values(|t: TransitionView| action_tag(t.action))).map_values(
        |t: u8| tag_name(t),
    )
}

/// The violations recorded in `steps`, step by step.
pub open spec fn steps_violations(steps: Seq<TransitionView>) -> Seq<ViolationText> {
    steps.map_values(|t: TransitionView| t.violations).flatten()
}

/// The contents of a list of strings.
pub open spec fn strings_view(v: Seq<String>) -> Seq<Seq<char>> {
    v.map_values(|s: String| s@)
}

/// The explorer a suite sets up: its users and assets, its configured depth
/// and threshold, nothing executed yet.
pub open spec fn suite_explorer(s: SuiteView) -> ExplorerView {
    ExplorerView {
        users: s.users,
        assets: s.assets,
        max_depth: s.config.max_depth,
        execution_count: 0,
        confidence_threshold: s.config.confidence_threshold,
    }
}

fn append_violations(out: &mut Vec<InvariantViolation>, more: Vec<InvariantViolation>)
    ensures
        violations_view(final(out)@) == violations_view(old(out)@) + violations_view(more@),
{
    let mut more = more;
    let ghost added = more@;
    out.append(&mut more);
    proof {
        assert(violations_view(out@) =~= violations_view(old(out)@) + violations_view(added));
    }
}

fn tag_of(a: &StateAction) -> (t: u8)
    ensures
        t == action_tag(*a),
{
    match a {
        StateAction::Deposit { .. } => 0,
        StateAction::Withdraw { .. } => 1,
        StateAction::Borrow { .. } => 2,
        StateAction::Repay { .. } => 3,
        StateAction::DepositCollateral { .. } => 4,
        StateAction::SetPause { .. } => 5,
        StateAction::SetLiquidationThreshold { .. } => 6,
        StateAction::SetOraclePrice { .. } => 7,
        StateAction::AdvanceTime { .. } => 8,
    }
}

fn name_of(t: u8) -> (s: String)
    ensures
        s@ == tag_name(t),
{
    if t == 0 {
        String::from_str("Deposit")
    } else if t == 1 {
        String::from_str("Withdraw")
    } else if t == 2 {
        String::from_str("Borrow")
    } else if t == 3 {
        String::from_str("Repay")
    } else if t == 4 {
        String::from_str("DepositCollateral")
    } else if t == 5 {
        String::from_str("SetPause")
    } else if t == 6 {
        String::from_str("SetLiquidationThreshold")
    } else if t == 7 {
        String::from_str("SetOraclePrice")
    } else {
        String::from_str("AdvanceTime")
    }
}

fn contains_tag(tags: &Vec<u8>, t: u8) -> (r: bool)
    ensures
        r == tags@.contains(t),
{
    let mut i: usize = 0;
    while i < tags.len()
        invariant
            i <= tags@.len(),
            forall|j: int| 0 <= j < i ==> tags@[j] != t,
        decreases tags@.len() - i,
    {
        if tags[i] == t {
            return true;
        }
        i = i + 1;
    }
    false
}

/// The names of the action kinds the given steps cover, each once, in order
/// of first occurrence.
pub fn get_covered_action_types(transitions: &Vec<StateTransition>) -> (r: Vec<String>)
    ensures
        strings_view(r@) == covered_action_types(transitions_view(transitions@)),
{
    let ghost tags_of = |t: TransitionView| action_tag(t.action);
    let ghost all_tags = transitions_view(transitions@).map_values(tags_of);
    let mut tags: Vec<u8> = Vec::new();
    let mut i: usize = 0;
    proof {
        assert(all_tags.take(0) =~= Seq::<u8>::empty());
    }
    while i < transitions.len()
        invariant
            i <= transitions@.len(),
            all_tags == transitions_view(transitions@).map_values(tags_of),
            tags_of == (|t: TransitionView| action_tag(t.action)),
            tags@ == first_seen(all_tags.take(i as int)),
        decreases transitions@.len() - i,
    {
        let t = tag_of(&transitions[i].action);
        proof {
            assert(all_tags.take(i + 1).drop_last() =~= all_tags.take(i as int));
            assert(all_tags.take(i + 1).last() == t);
        }
        if !contains_tag(&tags, t) {
            tags.push(t);
        }
        i = i + 1;
    }
    proof {
        assert(all_tags.take(i as int) =~= all_tags);
    }
    let mut names: Vec<String> = Vec::new();
    let mut k: usize = 0;
    while k < tags.len()
        invariant
            k <= tags@.len(),
            strings_view(names@) =~= tags@.take(k as int).map_values(|t: u8| tag_name(t)),
        decreases tags@.len() - k,
    {
        let name = name_of(tags[k]);
        let ghost before = names@;
        names.push(name);
        proof {
            assert(strings_view(names@) =~= strings_view(before).push(name@));
            assert(tags@.take(k + 1) =~= tags@.take(k as int).push(tags@[k as int]));
        }
        k = k + 1;
    }
    proof {
        assert(tags@.take(k as int) =~= tags@);
    }
    names
}

fn position_detail(user: &AccountId, collateral: i128, debt: i128) -> (s: String)
    ensures
        s@ == "user: "@ + debug_text(user@) + ", collateral: "@ + int_text(collateral as int) + ", debt: "@ + int_text(
            debt as int,
        ),
{
    let mut s = String::from_str("user: ");
    let shown = user.debug_text();
    s.append(shown.as_str());
    s.append(", collateral: ");
    append_i128(&mut s, collateral);
    s.append(", debt: ");
    append_i128(&mut s, debt);
    s
}

fn push_found(out: &mut Vec<InvariantViolation>, cond: bool, v: InvariantViolation)
    ensures
        violations_view(final(out)@) == violations_view(old(out)@) + only_if(cond, v@),
{
    if cond {
        out.push(v);
        proof {
            assert(violations_view(out@) =~= violations_view(old(out)@) + only_if(cond, v@));
        }
    } else {
        proof {
            assert(violations_view(out@) =~= violations_view(old(out)@) + only_if(cond, v@));
        }
    }
}

/// Runs every per-user invariant on each reading and returns all violations
/// found, or `Ok` when there are none.
pub fn assert_invariants_pass(readings: &Vec<UserState>, liquidation_paused: bool) -> (r: Result<
    (),
    Vec<InvariantViolation>,
>)
    ensures
        r is Ok <==> readings_violations(readings@, liquidation_paused).len() == 0,
        r matches Err(v) ==> violations_view(v@) == readings_violations(readings@, liquidation_paused),
{
    let mut all: Vec<InvariantViolation> = Vec::new();
    let ghost f = |i: int| user_violations(readings@[i], liquidation_paused);
    let mut i: usize = 0;
    proof {
        assert(violations_view(all@) =~= each_user(0, f));
    }
    while i < readings.len()
        invariant
            i <= readings@.len(),
            f == (|i: int| user_violations(readings@[i], liquidation_paused)),
            violations_view(all@) == each_user(i as nat, f),
        decreases readings@.len() - i,
    {
        let found = assert_all_for_user(&readings[i], liquidation_paused);
        append_violations(&mut all, found);
        proof {
            lemma_each_user_step(i as nat, f);
        }
        i = i + 1;
    }
    proof {
        assert(violations_view(all@).len() == all@.len());
    }
    if all.len() == 0 {
        Ok(())
    } else {
        Err(all)
    }
}

impl InvariantTestSuite {
    /// A suite with the given configuration and no users or assets.
    pub fn new(config: InvariantTestConfig) -> (s: Self)
        ensures
            s@ == (SuiteView { config, users: Seq::empty(), assets: Seq::empty() }),
    {
        let s = InvariantTestSuite { config, users: Vec::new(), assets: Vec::new() };
        proof {
            assert(s@.users =~= Seq::<AccountId>::empty());
            assert(s@.assets =~= Seq::<AccountId>::empty());
        }
        s
    }

    /// The configuration the suite runs with.
    pub fn config(&self) -> (c: InvariantTestConfig)
        ensures
            c == self@.config,
    {
        self.config
    }

    /// The number of users tested.
    pub fn user_count(&self) -> (n: usize)
        ensures
            n == self@.users.len(),
    {
        self.users.len()
    }

    /// The number of assets tested.
    pub fn asset_count(&self) -> (n: usize)
        ensures
            n == self@.assets.len(),
    {
        self.assets.len()
    }

    /// Adds a user to test.
    pub fn add_user(&mut self, user: AccountId)
        ensures
            final(self)@ == (SuiteView { users: old(self)@.users.push(user), ..old(self)@ }),
    {
        self.users.push(user);
    }

    /// Adds an asset to test.
    pub fn add_asset(&mut self, asset: AccountId)
        ensures
            final(self)@ == (SuiteView { assets: old(self)@.assets.push(asset), ..old(self)@ }),
    {
        self.assets.push(asset);
    }

    /// The basic checks, given one position reading per user of the suite,
    /// whether liquidation is paused, the protocol readings taken first
    /// (`baseline`) and the readings each protocol check takes (`current`).
    /// Returns every violation found, or `Ok` when none is.
    pub fn run_basic_invariant_checks(
        &self,
        readings: &Vec<UserState>,
        liquidation_paused: bool,
        baseline: &ProtocolState,
        current: &ProtocolState,
    ) -> (r: Result<(), Vec<InvariantViolation>>)
        requires
            readings@.len() == self@.users.len(),
        ensures
            r is Ok <==> basic_violations(
                readings@,
                liquidation_paused,
                baseline@,
                current@,
                self@.config.known_exemptions,
            ).len() == 0,
            r matches Err(v) ==> violations_view(v@) == basic_violations(
                readings@,
                liquidation_paused,
                baseline@,
                current@,
                self@.config.known_exemptions,
            ),
    {
        let mut all: Vec<InvariantViolation> = Vec::new();
        let ghost f = |i: int| user_violations(readings@[i], liquidation_paused);
        let mut i: usize = 0;
        proof {
            assert(violations_view(all@) =~= each_user(0, f));
        }
        while i < readings.len()
            invariant
                i <= readings@.len(),
                f == (|i: int| user_violations(readings@[i], liquidation_paused)),
                violations_view(all@) == each_user(i as nat, f),
            decreases readings@.len() - i,
        {
            let found = assert_all_for_user(&readings[i], liquidation_paused);
            append_violations(&mut all, found);
            proof {
                lemma_each_user_step(i as nat, f);
            }
            i = i + 1;
        }
        push_failure(
            &mut all,
            check_inv_010_total_assets_monotonic(baseline.total_assets, current.total_assets),
        );
        push_failure(
            &mut all,
            check_inv_012_interest_monotonicity(
                baseline.interest_index,
                current.interest_index,
                &self.config.known_exemptions,
            ),
        );
        push_failure(
            &mut all,
            check_inv_013_reserve_monotonic(baseline.protocol_reserves, current.protocol_reserves),
        );
        push_failure(&mut all, check_inv_014_access_control(&baseline.admin, &current.admin));
        proof {
            assert(violations_view(all@).len() == all@.len());
            assert(violations_view(all@) =~= basic_violations(
                readings@,
                liquidation_paused,
                baseline@,
                current@,
                self@.config.known_exemptions,
            ));
        }
        if all.len() == 0 {
            Ok(())
        } else {
            Err(all)
        }
    }

    /// The edge-case checks, given one position reading per user of the
    /// suite, whether the protocol is paused, and the configured admin.
    /// Four checks run, whatever they find.
    pub fn run_edge_case_tests(&self, readings: &Vec<UserState>, paused: bool, admin: &Option<AccountId>) -> (r:
        PhaseOutcome)
        requires
            readings@.len() == self@.users.len(),
        ensures
            r.total_executions == 4,
            violations_view(r.violations_found@) == edge_violations(
                keys(self@.users),
                readings@,
                paused,
                opt_view(*admin),
            ),
    {
        let mut found: Vec<InvariantViolation> = Vec::new();
        let ghost users = keys(self.users@);
        let ghost n = readings@.len();
        let ghost f1 = |i: int| solvency_edge(users[i], readings@[i]);
        let ghost f2 = |i: int| negative_balance_edge(users[i], readings@[i]);
        let ghost f3 = |i: int| paused_position_edge(users[i], readings@[i]);
        let mut execution_count: u64 = 0;
        proof {
            assert(violations_view(found@) =~= each_user(0, f1));
        }
        let mut i: usize = 0;
        while i < readings.len()
            invariant
                i <= readings@.len(),
                readings@.len() == self.users@.len(),
                users == keys(self.users@),
                f1 == (|i: int| solvency_edge(users[i], readings@[i])),
                violations_view(found@) == each_user(i as nat, f1),
            decreases readings@.len() - i,
        {
            let u = readings[i];
            let user = &self.users[i];
            push_found(
                &mut found,
                u.debt_balance == 0 && u.health_factor < 10_000,
                InvariantViolation {
                    invariant_id: "INV-001-EDGE-1",
                    message: "Zero debt user has unhealthy health factor",
                    detail: user_detail(user, ", health_factor: ", u.health_factor),
                },
            );
            proof {
                lemma_each_user_step(i as nat, f1);
            }
            i = i + 1;
        }
        execution_count = execution_count + 1;
        let ghost after_solvency = violations_view(found@);
        let mut i: usize = 0;
        proof {
            assert(violations_view(found@) =~= after_solvency + each_user(0, f2));
        }
        while i < readings.len()
            invariant
                i <= readings@.len(),
                readings@.len() == self.users@.len(),
                users == keys(self.users@),
                f2 == (|i: int| negative_balance_edge(users[i], readings@[i])),
                violations_view(found@) == after_solvency + each_user(i as nat, f2),
            decreases readings@.len() - i,
        {
            let u = readings[i];
            let user = &self.users[i];
            let ghost before = violations_view(found@);
            push_found(
                &mut found,
                u.collateral_balance < 0,
                InvariantViolation {
                    invariant_id: "INV-002-EDGE-1",
                    message: "Negative collateral balance detected",
                    detail: user_detail(user, ", balance: ", u.collateral_balance),
                },
            );
            push_found(
                &mut found,
                u.debt_balance < 0,
                InvariantViolation {
                    invariant_id: "INV-003-EDGE-1",
                    message: "Negative debt balance detected",
                    detail: user_detail(user, ", balance: ", u.debt_balance),
                },
            );
            proof {
                lemma_each_user_step(i as nat, f2);
                assert(violations_view(found@) =~= after_solvency + each_user((i + 1) as nat, f2));
            }
            i = i + 1;
        }
        execution_count = execution_count + 1;
        let ghost after_balances = violations_view(found@);
        if paused {
            let mut i: usize = 0;
            proof {
                assert(violations_view(found@) =~= after_balances + each_user(0, f3));
            }
            while i < readings.len()
                invariant
                    i <= readings@.len(),
                    readings@.len() == self.users@.len(),
                    users == keys(self.users@),
                    f3 == (|i: int| paused_position_edge(users[i], readings@[i])),
                    violations_view(found@) == after_balances + each_user(i as nat, f3),
                decreases readings@.len() - i,
            {
                let u = readings[i];
                let user = &self.users[i];
                push_found(
                    &mut found,
                    u.collateral_balance < 0 || u.debt_balance < 0,
                    InvariantViolation {
                        invariant_id: "INV-007-EDGE-1",
                        message: "Invalid position while paused",
                        detail: position_detail(user, u.collateral_balance, u.debt_balance),
                    },
                );
                proof {
                    lemma_each_user_step(i as nat, f3);
                    assert(violations_view(found@) =~= after_balances + each_user((i + 1) as nat, f3));
                }
                i = i + 1;
            }
        } else {
            proof {
                assert(violations_view(found@) =~= after_balances + Seq::<ViolationText>::empty());
            }
        }
        execution_count = execution_count + 1;
        let ghost after_pause = violations_view(found@);
        match admin {
            Some(a) => {
                push_found(
                    &mut found,
                    a.is_zero(),
                    InvariantViolation {
                        invariant_id: "INV-006-EDGE-1",
                        message: "Admin address is default (unset)",
                        detail: String::from_str("Admin should be properly configured"),
                    },
                );
            },
            None => {
                proof {
                    assert(violations_view(found@) =~= after_pause + Seq::<ViolationText>::empty());
                }
            },
        }
        execution_count = execution_count + 1;
        proof {
            assert(violations_view(found@) =~= edge_violations(
                keys(self@.users),
                readings@,
                paused,
                opt_view(*admin),
            ));
        }
        PhaseOutcome { total_executions: execution_count, violations_found: found }
    }

    /// The exploration phase: an explorer over the suite's users and assets,
    /// with the configured depth and threshold, explores from `initial`;
    /// every violation of every replayed step is collected.
    pub fn run_state_exploration(&self, initial: &ProtocolState) -> (r: ExplorationOutcome)
        requires
            forall|k: int|
                0 <= k < explorer_run_length(suite_explorer(self@)) ==> replay_computable(
                    initial@,
                    #[trigger] explorer_sequences(suite_explorer(self@))[k],
                ),
            explorer_run_length(suite_explorer(self@)) <= u64::MAX,
        ensures
            r.total_executions == explorer_run_length(suite_explorer(self@)),
            transitions_view(r.reproduction_steps@) == replay_all(
                initial@,
                explorer_sequences(suite_explorer(self@)).take(explorer_run_length(suite_explorer(self@))),
            ),
            violations_view(r.violations_found@) == steps_violations(transitions_view(r.reproduction_steps@)),
            strings_view(r.action_types_covered@) == covered_action_types(
                transitions_view(r.reproduction_steps@),
            ),
    {
        let mut explorer = StateMachineExplorer::new(self.config.max_depth, self.config.confidence_threshold);
        let mut i: usize = 0;
        proof {
            assert(self.users@.take(0) =~= Seq::<AccountId>::empty());
        }
        while i < self.users.len()
            invariant
                i <= self.users@.len(),
                explorer@ == (ExplorerView {
                    users: self.users@.take(i as int),
                    assets: Seq::empty(),
                    ..suite_explorer(self@)
                }),
            decreases self.users@.len() - i,
        {
            explorer.add_user(self.users[i].duplicate());
            proof {
                assert(self.users@.take(i + 1) =~= self.users@.take(i as int).push(self.users@[i as int]));
            }
            i = i + 1;
        }
        let mut j: usize = 0;
        proof {
            assert(self.users@.take(i as int) =~= self.users@);
            assert(self.assets@.take(0) =~= Seq::<AccountId>::empty());
        }
        while j < self.assets.len()
            invariant
                j <= self.assets@.len(),
                explorer@ == (ExplorerView { assets: self.assets@.take(j as int), ..suite_explorer(self@) }),
            decreases self.assets@.len() - j,
        {
            explorer.add_asset(self.assets[j].duplicate());
            proof {
                assert(self.assets@.take(j + 1) =~= self.assets@.take(j as int).push(self.assets@[j as int]));
            }
            j = j + 1;
        }
        proof {
            assert(self.assets@.take(j as int) =~= self.assets@);
            assert(explorer@ == suite_explorer(self@));
        }
        let transitions = explorer.explore(initial);
        let mut violations: Vec<InvariantViolation> = Vec::new();
        let ghost steps = transitions_view(transitions@);
        let ghost g = |t: TransitionView| t.violations;
        let mut k: usize = 0;
        proof {
            assert(steps.take(0).map_values(g) =~= Seq::<Seq<ViolationText>>::empty());
            assert(violations_view(violations@) =~= steps.take(0).map_values(g).flatten());
        }
        while k < transitions.len()
            invariant
                k <= transitions@.len(),
                steps == transitions_view(transitions@),
                g == (|t: TransitionView| t.violations),
                violations_view(violations@) == steps.take(k as int).map_values(g).flatten(),
            decreases transitions@.len() - k,
        {
            let copy = duplicate_violations(&transitions[k].violations);
            append_violations(&mut violations, copy);
            proof {
                assert(steps.take(k + 1).map_values(g) =~= steps.take(k as int).map_values(g).push(
                    g(steps[k as int]),
                ));
                steps.take(k as int).map_values(g).lemma_flatten_push(g(steps[k as int]));
            }
            k = k + 1;
        }
        proof {
            assert(steps.take(k as int) =~= steps);
        }
        let covered = get_covered_action_types(&transitions);
        ExplorationOutcome {
            total_executions: explorer.get_execution_count(),
            violations_found: violations,
            action_types_covered: covered,
            reproduction_steps: transitions,
        }
    }
}

fn duplicate_violations(v: &Vec<InvariantViolation>) -> (r: Vec<InvariantViolation>)
    ensures
        violations_view(r@) == violations_view(v@),
{
    let mut r: Vec<InvariantViolation> = Vec::new();
    let mut i: usize = 0;
    while i < v.len()
        invariant
            i <= v@.len(),
            violations_view(r@) =~= violations_view(v@.take(i as int)),
        decreases v@.len() - i,
    {
        let x = InvariantViolation {
            invariant_id: v[i].invariant_id,
            message: v[i].message,
            detail: v[i].detail.clone(),
        };
        let ghost before = r@;
        r.push(x);
        proof {
            assert(violations_view(r@) =~= violations_view(before).push(x@));
            assert(v@.take(i + 1) =~= v@.take(i as int).push(v@[i as int]));
            assert(violations_view(v@.take(i + 1)) =~= violations_view(v@.take(i as int)).push(v@[i as int]@));
        }
        i = i + 1;
    }
    proof {
        assert(v@.take(i as int) =~= v@);
    }
    r
}

/// The verdict of a run: failed when any violation was found, passed when
/// none was and the confidence is sufficient, inconclusive otherwise.
pub fn summary_status(violations_found: usize, confidence_sufficient: bool) -> (s: TestStatus)
    ensures
        s == (if violations_found == 0 && confidence_sufficient {
            TestStatus::Passed
        } else if violations_found > 0 {
            TestStatus::Failed
        } else {
            TestStatus::Inconclusive
        }),
{
    if violations_found == 0 && confidence_sufficient {
        TestStatus::Passed
    } else if violations_found > 0 {
        TestStatus::Failed
    } else {
        TestStatus::Inconclusive
    }
}

/// The recommendations of a run, in this order: more executions or depth
/// when the confidence is insufficient, more users or assets when the
/// coverage is low, and fixing the violations when there are any.
pub fn summary_recommendations(
    confidence_sufficient: bool,
    coverage_sufficient: bool,
    violations_found: usize,
) -> (r: Vec<String>)
    ensures
        strings_view(r@) == only_if(!confidence_sufficient, "Consider increasing execution count or test depth"@)
            + only_if(!coverage_sufficient, "Increase test coverage by adding more users/assets"@) + only_if(
            violations_found > 0,
            "Fix invariant violations before proceeding"@,
        ),
{
    let mut r: Vec<String> = Vec::new();
    let ghost s0 = strings_view(r@);
    if !confidence_sufficient {
        r.push(String::from_str("Consider increasing execution count or test depth"));
    }
    let ghost s1 = strings_view(r@);
    proof {
        assert(s1 =~= s0 + only_if(!confidence_sufficient, "Consider increasing execution count or test depth"@));
    }
    if !coverage_sufficient {
        r.push(String::from_str("Increase test coverage by adding more users/assets"));
    }
    let ghost s2 = strings_view(r@);
    proof {
        assert(s2 =~= s1 + only_if(!coverage_sufficient, "Increase test coverage by adding more users/assets"@));
    }
    if violations_found > 0 {
        r.push(String::from_str("Fix invariant violations before proceeding"));
    }
    proof {
        assert(strings_view(r@) =~= s2 + only_if(violations_found > 0, "Fix invariant violations before proceeding"@));
        assert(s0 =~= Seq::<Seq<char>>::empty());
    }
    r
}

} // verus!
