//! Systematic exploration: every sequence of generated actions, by length up
//! to a maximum depth, is replayed on a captured protocol state, and the state
//! invariants are checked after each step, until the configured number of
//! sequences has been executed.
use vstd::prelude::*;
use vstd::arithmetic::power::pow;
use crate::address::AccountId;
use crate::invariants::{InvariantViolation, ViolationText, violations_view};
use crate::state_machine::{
    ActionKind, ProtocolState, ProtocolView, StateAction, action_bounded, all_actions, all_bounded_from,
    applied, apply_computable, apply_action, borrow_actions, borrows_for, check_invariants, kind_action,
    kind_actions, state_violations, push_kind_actions, push_borrow_actions, time_actions, trial_amounts,
};

verus! {

/// One replayed step: the action, the states before and after it, and the
/// violations found in the state after it.
#[derive(Debug)]
pub struct StateTransition {
    pub action: StateAction,
    pub pre_state: ProtocolState,
    pub post_state: ProtocolState,
    pub violations: Vec<InvariantViolation>,
}

/// The content of a replayed step.
pub struct TransitionView {
    pub action: StateAction,
    pub pre_state: ProtocolView,
    pub post_state: ProtocolView,
    pub violations: Seq<ViolationText>,
}

impl View for StateTransition {
    type V = TransitionView;

    open spec fn view(&self) -> TransitionView {
        TransitionView {
            action: self.action,
            pre_state: self.pre_state@,
            post_state: self.post_state@,
            violations: violations_view(self.violations@),
        }
    }
}

/// The contents of a list of replayed steps.
pub open spec fn transitions_view(v: Seq<StateTransition>) -> Seq<TransitionView> {
    v.map_values(|t: StateTransition| t@)
}

/// The contents of a list of action sequences.
pub open spec fn sequences_view(v: Seq<Vec<StateAction>>) -> Seq<Seq<StateAction>> {
    v.map_values(|s: Vec<StateAction>| s@)
}

/// The state reached by replaying `acts` on `init`.
pub open spec fn replay(init: ProtocolView, acts: Seq<StateAction>) -> ProtocolView
    decreases acts.len(),
{
    if acts.len() == 0 {
        init
    } else {
        applied(replay(init, acts.drop_last()), acts.last())
    }
}

/// Whether every step of replaying `acts` on `init` stays within `i128`.
pub open spec fn replay_computable(init: ProtocolView, acts: Seq<StateAction>) -> bool {
    forall|k: int| 0 <= k < acts.len() ==> apply_computable(replay(init, acts.take(k)), #[trigger] acts[k])
}

/// Step `k` of replaying `acts` on `init`.
pub open spec fn replay_step(init: ProtocolView, acts: Seq<StateAction>, k: int) -> TransitionView {
    let before = replay(init, acts.take(k));
    let after = applied(before, acts[k]);
    TransitionView { action: acts[k], pre_state: before, post_state: after, violations: state_violations(after) }
}

/// Every step of replaying `acts` on `init`, in order.
pub open spec fn replay_transitions(init: ProtocolView, acts: Seq<StateAction>) -> Seq<TransitionView> {
    Seq::new(acts.len(), |k: int| replay_step(init, acts, k))
}

/// The steps of replaying each of `seqs` on `init`, one sequence after another.
pub open spec fn replay_all(init: ProtocolView, seqs: Seq<Seq<StateAction>>) -> Seq<TransitionView> {
    seqs.map_values(|s: Seq<StateAction>| replay_transitions(init, s)).flatten()
}

/// Every sequence made of `prefix` followed by `remaining` actions drawn from
/// `acts`, in lexicographic order of the choices; a sequence that ends up
/// empty is left out.
pub open spec fn extensions(prefix: Seq<StateAction>, acts: Seq<StateAction>, remaining: nat) -> Seq<
    Seq<StateAction>,
>
    decreases remaining, 0nat,
{
    if remaining == 0 {
        if prefix.len() > 0 {
            seq![prefix]
        } else {
            Seq::empty()
        }
    } else {
        extensions_upto(prefix, acts, (remaining - 1) as nat, acts.len())
    }
}

/// The extensions of `prefix` whose next action is one of the first `k` of
/// `acts`, followed by `remaining` further actions.
pub open spec fn extensions_upto(
    prefix: Seq<StateAction>,
    acts: Seq<StateAction>,
    remaining: nat,
    k: nat,
) -> Seq<Seq<StateAction>>
    decreases remaining, k,
{
    if k == 0 || k > acts.len() {
        Seq::empty()
    } else {
        extensions_upto(prefix, acts, remaining, (k - 1) as nat) + extensions(
            prefix.push(acts[k - 1]),
            acts,
            remaining,
        )
    }
}

/// Every action sequence of length 1 to `depth`, shortest first.
pub open spec fn sequences_upto(acts: Seq<StateAction>, depth: nat) -> Seq<Seq<StateAction>>
    decreases depth,
{
    if depth == 0 {
        Seq::empty()
    } else {
        sequences_upto(acts, (depth - 1) as nat) + extensions(Seq::empty(), acts, depth)
    }
}

/// How many of `total` sequences one exploration executes when the count
/// starts at `count`: it stops as soon as the count reaches `threshold`, but
/// runs at least one sequence when there is one.
pub open spec fn executed_count(total: int, count: int, threshold: int) -> int {
    if total == 0 {
        0
    } else if threshold - count <= 1 {
        1
    } else if threshold - count < total {
        threshold - count
    } else {
        total
    }
}

proof fn lemma_sequences_prefix(acts: Seq<StateAction>, d: nat, big: nat)
    requires
        d <= big,
    ensures
        sequences_upto(acts, big).len() >= sequences_upto(acts, d).len(),
        sequences_upto(acts, big).take(sequences_upto(acts, d).len() as int) == sequences_upto(acts, d),
    decreases big,
{
    if d < big {
        lemma_sequences_prefix(acts, d, (big - 1) as nat);
        let prev = sequences_upto(acts, (big - 1) as nat);
        let small = sequences_upto(acts, d);
        assert((prev + extensions(Seq::empty(), acts, big)).take(small.len() as int) =~= prev.take(
            small.len() as int,
        ));
    } else {
        assert(sequences_upto(acts, big).take(sequences_upto(acts, d).len() as int) =~= sequences_upto(
            acts,
            d,
        ));
    }
}

/// A copy of an action sequence.
fn duplicate_actions(v: &Vec<StateAction>) -> (r: Vec<StateAction>)
    ensures
        r@ == v@,
{
    let mut r: Vec<StateAction> = Vec::new();
    let mut i: usize = 0;
    while i < v.len()
        invariant
            i <= v@.len(),
            r@ == v@.take(i as int),
        decreases v@.len() - i,
    {
        r.push(v[i].duplicate());
        proof {
            assert(v@.take(i + 1) =~= v@.take(i as int).push(v@[i as int]));
        }
        i = i + 1;
    }
    proof {
        assert(v@.take(i as int) =~= v@);
    }
    r
}

/// Replays `sequence` on `initial`, recording each step with the violations
/// found after it.
pub fn execute_action_sequence(sequence: &Vec<StateAction>, initial: &ProtocolState) -> (r: Vec<
    StateTransition,
>)
    requires
        replay_computable(initial@, sequence@),
    ensures
        transitions_view(r@) == replay_transitions(initial@, sequence@),
{
    let mut transitions: Vec<StateTransition> = Vec::new();
    let mut current_state = initial.duplicate();
    let mut i: usize = 0;
    proof {
        assert(sequence@.take(0) =~= Seq::<StateAction>::empty());
    }
    while i < sequence.len()
        invariant
            i <= sequence@.len(),
            replay_computable(initial@, sequence@),
            current_state@ == replay(initial@, sequence@.take(i as int)),
            transitions_view(transitions@) =~= replay_transitions(initial@, sequence@).take(i as int),
        decreases sequence@.len() - i,
    {
        let action = &sequence[i];
        assert(apply_computable(replay(initial@, sequence@.take(i as int)), sequence@[i as int]));
        let pre_state = current_state.duplicate();
        let post_state = apply_action(&current_state, action);
        let violations = check_invariants(&post_state);
        let t = StateTransition {
            action: action.duplicate(),
            pre_state,
            post_state: post_state.duplicate(),
            violations,
        };
        let ghost before = transitions@;
        transitions.push(t);
        proof {
            assert(sequence@.take(i + 1).drop_last() =~= sequence@.take(i as int));
            assert(transitions_view(transitions@) =~= transitions_view(before).push(t@));
            assert(t@ == replay_step(initial@, sequence@, i as int));
            assert(replay_transitions(initial@, sequence@).take(i + 1) =~= replay_transitions(
                initial@,
                sequence@,
            ).take(i as int).push(replay_step(initial@, sequence@, i as int)));
        }
        current_state = post_state;
        i = i + 1;
    }
    proof {
        assert(replay_transitions(initial@, sequence@).take(i as int) =~= replay_transitions(
            initial@,
            sequence@,
        ));
    }
    transitions
}

/// The configuration and progress of an explorer.
pub struct ExplorerView {
    pub users: Seq<AccountId>,
    pub assets: Seq<AccountId>,
    pub max_depth: usize,
    pub execution_count: u64,
    pub confidence_threshold: u64,
}

/// Explores action sequences over a set of users and assets.
pub struct StateMachineExplorer {
    users: Vec<AccountId>,
    assets: Vec<AccountId>,
    max_depth: usize,
    execution_count: u64,
    confidence_threshold: u64,
}

impl View for StateMachineExplorer {
    type V = ExplorerView;

    closed spec fn view(&self) -> ExplorerView {
        ExplorerView {
            users: self.users@,
            assets: self.assets@,
            max_depth: self.max_depth,
            execution_count: self.execution_count,
            confidence_threshold: self.confidence_threshold,
        }
    }
}

/// The sequences an explorer with this configuration walks through, in order.
pub open spec fn explorer_sequences(e: ExplorerView) -> Seq<Seq<StateAction>> {
    sequences_upto(all_actions(e.users, e.assets), e.max_depth as nat)
}

/// How many sequences the next exploration of `e` executes.
pub open spec fn explorer_run_length(e: ExplorerView) -> int {
    executed_count(
        explorer_sequences(e).len() as int,
        e.execution_count as int,
        e.confidence_threshold as int,
    )
}

impl StateMachineExplorer {
    /// An explorer with no users or assets and nothing executed yet.
    pub fn new(max_depth: usize, confidence_threshold: u64) -> (e: Self)
        ensures
            e@ == (ExplorerView {
                users: Seq::empty(),
                assets: Seq::empty(),
                max_depth,
                execution_count: 0,
                confidence_threshold,
            }),
    {
        let e = StateMachineExplorer {
            users: Vec::new(),
            assets: Vec::new(),
            max_depth,
            execution_count: 0,
            confidence_threshold,
        };
        proof {
            assert(e@.users =~= Seq::<AccountId>::empty());
            assert(e@.assets =~= Seq::<AccountId>::empty());
        }
        e
    }

    /// Adds a user whose actions are explored.
    pub fn add_user(&mut self, user: AccountId)
        ensures
            final(self)@ == (ExplorerView { users: old(self)@.users.push(user), ..old(self)@ }),
    {
        self.users.push(user);
    }

    /// Adds an asset the users act on.
    pub fn add_asset(&mut self, asset: AccountId)
        ensures
            final(self)@ == (ExplorerView { assets: old(self)@.assets.push(asset), ..old(self)@ }),
    {
        self.assets.push(asset);
    }

    /// The deepest sequence length explored.
    pub fn max_depth(&self) -> (r: usize)
        ensures
            r == self@.max_depth,
    {
        self.max_depth
    }

    /// The number of executed sequences after which exploration stops.
    pub fn confidence_threshold(&self) -> (r: u64)
        ensures
            r == self@.confidence_threshold,
    {
        self.confidence_threshold
    }

    /// The number of sequences executed so far.
    pub fn get_execution_count(&self) -> (r: u64)
        ensures
            r == self@.execution_count,
    {
        self.execution_count
    }

    /// Whether enough sequences have been executed.
    pub fn has_reached_confidence(&self) -> (r: bool)
        ensures
            r == (self@.execution_count >= self@.confidence_threshold),
    {
        self.execution_count >= self.confidence_threshold
    }

    /// Every action a single step may take: for each user and asset,
    /// deposits, withdrawals, borrows against each other asset and
    /// repayments at each trial amount, then the time advances; none when
    /// there are no users or no assets.
    pub fn generate_all_actions(&self) -> (r: Vec<StateAction>)
        ensures
            r@ == all_actions(self@.users, self@.assets),
    {
        let mut actions: Vec<StateAction> = Vec::new();
        if self.users.len() == 0 || self.assets.len() == 0 {
            proof {
                assert(actions@ =~= Seq::<StateAction>::empty());
            }
            return actions;
        }
        push_kind_actions(&mut actions, crate::state_machine::ActionKind::Deposit, &self.users, &self.assets);
        push_kind_actions(&mut actions, crate::state_machine::ActionKind::Withdraw, &self.users, &self.assets);
        push_borrow_actions(&mut actions, &self.users, &self.assets);
        push_kind_actions(&mut actions, crate::state_machine::ActionKind::Repay, &self.users, &self.assets);
        actions.push(StateAction::AdvanceTime { delta: 100 });
        actions.push(StateAction::AdvanceTime { delta: 1000 });
        actions.push(StateAction::AdvanceTime { delta: 10000 });
        proof {
            assert(actions@ =~= all_actions(self@.users, self@.assets));
        }
        actions
    }

    fn generate_sequences_recursive(
        &self,
        max_depth: usize,
        current_depth: usize,
        current_sequence: Vec<StateAction>,
        sequences: &mut Vec<Vec<StateAction>>,
    )
        requires
            current_depth <= max_depth,
        ensures
            sequences_view(final(sequences)@) == sequences_view(old(sequences)@) + extensions(
                current_sequence@,
                all_actions(self@.users, self@.assets),
                (max_depth - current_depth) as nat,
            ),
        decreases max_depth - current_depth,
    {
        let ghost acts = all_actions(self@.users, self@.assets);
        if current_depth == max_depth {
            if current_sequence.len() > 0 {
                let ghost s = current_sequence@;
                sequences.push(current_sequence);
                proof {
                    assert(sequences_view(sequences@) =~= sequences_view(old(sequences)@) + seq![s]);
                }
            } else {
                proof {
                    assert(sequences_view(sequences@) =~= sequences_view(old(sequences)@) + Seq::empty());
                }
            }
            return;
        }
        let actions = self.generate_all_actions();
        let ghost rem: nat = (max_depth - current_depth - 1) as nat;
        let mut i: usize = 0;
        proof {
            assert(sequences_view(sequences@) =~= sequences_view(old(sequences)@) + extensions_upto(
                current_sequence@,
                acts,
                rem,
                0,
            ));
        }
        while i < actions.len()
            invariant
                current_depth < max_depth,
                rem == max_depth - current_depth - 1,
                acts == all_actions(self@.users, self@.assets),
                actions@ == acts,
                i <= actions@.len(),
                sequences_view(sequences@) == sequences_view(old(sequences)@) + extensions_upto(
                    current_sequence@,
                    acts,
                    rem,
                    i as nat,
                ),
            decreases actions@.len() - i,
        {
            let mut new_sequence = duplicate_actions(&current_sequence);
            new_sequence.push(actions[i].duplicate());
            let ghost mid = sequences_view(sequences@);
            self.generate_sequences_recursive(max_depth, current_depth + 1, new_sequence, sequences);
            proof {
                assert(new_sequence@ == current_sequence@.push(acts[i as int]));
                assert(extensions_upto(current_sequence@, acts, rem, (i + 1) as nat) == extensions_upto(
                    current_sequence@,
                    acts,
                    rem,
                    i as nat,
                ) + extensions(current_sequence@.push(acts[i as int]), acts, rem));
                assert(sequences_view(sequences@) =~= sequences_view(old(sequences)@) + extensions_upto(
                    current_sequence@,
                    acts,
                    rem,
                    (i + 1) as nat,
                ));
            }
            i = i + 1;
        }
    }

    /// Every action sequence of exactly `depth` steps, in lexicographic
    /// order of the generated actions.
    pub fn generate_action_sequences(&self, depth: usize) -> (r: Vec<Vec<StateAction>>)
        ensures
            sequences_view(r@) == extensions(Seq::empty(), all_actions(self@.users, self@.assets), depth as nat),
    {
        let mut sequences: Vec<Vec<StateAction>> = Vec::new();
        let start: Vec<StateAction> = Vec::new();
        proof {
            assert(start@ =~= Seq::<StateAction>::empty());
            assert(sequences_view(sequences@) =~= Seq::<Seq<StateAction>>::empty());
        }
        self.generate_sequences_recursive(depth, 0, start, &mut sequences);
        proof {
            let e = extensions(Seq::empty(), all_actions(self@.users, self@.assets), depth as nat);
            assert(Seq::<Seq<StateAction>>::empty() + e =~= e);
        }
        sequences
    }

    /// Explores from `initial`: replays the sequences of length 1, then 2,
    /// up to the maximum depth, each from `initial`, and collects every
    /// step. It stops once the execution count reaches the confidence
    /// threshold, checked after each sequence, so at least one sequence runs
    /// when there is one.
    pub fn explore(&mut self, initial: &ProtocolState) -> (r: Vec<StateTransition>)
        requires
            forall|k: int|
                0 <= k < explorer_run_length(old(self)@) ==> replay_computable(
                    initial@,
                    #[trigger] explorer_sequences(old(self)@)[k],
                ),
            old(self)@.execution_count + explorer_run_length(old(self)@) <= u64::MAX,
        ensures
            final(self)@ == (ExplorerView {
                execution_count: (old(self)@.execution_count + explorer_run_length(old(self)@)) as u64,
                ..old(self)@
            }),
            transitions_view(r@) == replay_all(
                initial@,
                explorer_sequences(old(self)@).take(explorer_run_length(old(self)@)),
            ),
    {
        let ghost acts = all_actions(self@.users, self@.assets);
        let ghost all_seqs = explorer_sequences(self@);
        let ghost n = explorer_run_length(self@);
        let ghost c0 = self.execution_count as int;
        let ghost thr = self.confidence_threshold as int;
        let mut all: Vec<StateTransition> = Vec::new();
        let mut done = false;
        let mut d: usize = 0;
        proof {
            assert(all_seqs.take(0) =~= Seq::<Seq<StateAction>>::empty());
            assert(transitions_view(all@) =~= replay_all(initial@, all_seqs.take(0)));
        }
        while d < self.max_depth && !done
            invariant
                self.users@ == old(self).users@,
                self.assets@ == old(self).assets@,
                self.max_depth == old(self).max_depth,
                self.confidence_threshold == old(self).confidence_threshold,
                acts == all_actions(self@.users, self@.assets),
                all_seqs == sequences_upto(acts, self.max_depth as nat),
                n == executed_count(all_seqs.len() as int, c0, thr),
                c0 == old(self).execution_count,
                thr == self.confidence_threshold,
                forall|k: int| 0 <= k < n ==> replay_computable(initial@, #[trigger] all_seqs[k]),
                c0 + n <= u64::MAX,
                d <= self.max_depth,
                self.execution_count >= c0,
                !done ==> self.execution_count - c0 == sequences_upto(acts, d as nat).len(),
                !done ==> (self.execution_count > c0 ==> self.execution_count < thr),
                done ==> self.execution_count - c0 == n,
                transitions_view(all@) == replay_all(initial@, all_seqs.take(self.execution_count - c0)),
            decreases self.max_depth - d,
        {
            let depth = d + 1;
            let sequences = self.generate_action_sequences(depth);
            let ghost shorter = sequences_upto(acts, d as nat);
            let ghost upto = sequences_upto(acts, depth as nat);
            proof {
                lemma_sequences_prefix(acts, depth as nat, self.max_depth as nat);
                assert(upto == shorter + sequences_view(sequences@));
            }
            let mut j: usize = 0;
            while j < sequences.len() && !done
                invariant
                    self.users@ == old(self).users@,
                    self.assets@ == old(self).assets@,
                    self.max_depth == old(self).max_depth,
                    self.confidence_threshold == old(self).confidence_threshold,
                    acts == all_actions(self@.users, self@.assets),
                    all_seqs == sequences_upto(acts, self.max_depth as nat),
                    n == executed_count(all_seqs.len() as int, c0, thr),
                    c0 == old(self).execution_count,
                    thr == self.confidence_threshold,
                    forall|k: int| 0 <= k < n ==> replay_computable(initial@, #[trigger] all_seqs[k]),
                    c0 + n <= u64::MAX,
                    upto == shorter + sequences_view(sequences@),
                    all_seqs.len() >= upto.len(),
                    all_seqs.take(upto.len() as int) == upto,
                    j <= sequences@.len(),
                    self.execution_count >= c0,
                    !done ==> self.execution_count - c0 == shorter.len() + j,
                    !done ==> (self.execution_count > c0 ==> self.execution_count < thr),
                    done ==> self.execution_count - c0 == n,
                    transitions_view(all@) == replay_all(
                        initial@,
                        all_seqs.take(self.execution_count - c0),
                    ),
                decreases sequences@.len() - j,
            {
                let ghost m = self.execution_count - c0;
                proof {
                    assert(all_seqs[m] == upto[m]);
                    assert(upto[m] == sequences@[j as int]@);
                    assert(m < n);
                }
                let mut transitions = execute_action_sequence(&sequences[j], initial);
                let ghost before = all@;
                let ghost added = transitions@;
                all.append(&mut transitions);
                proof {
                    assert(transitions_view(all@) =~= transitions_view(before) + transitions_view(added));
                    let f = |s: Seq<StateAction>| replay_transitions(initial@, s);
                    assert(all_seqs.take(m + 1) =~= all_seqs.take(m).push(all_seqs[m]));
                    assert(all_seqs.take(m + 1).map_values(f) =~= all_seqs.take(m).map_values(f).push(
                        f(all_seqs[m]),
                    ));
                    all_seqs.take(m).map_values(f).lemma_flatten_push(f(all_seqs[m]));
                }
                self.execution_count = self.execution_count + 1;
                if self.execution_count >= self.confidence_threshold {
                    done = true;
                }
                j = j + 1;
            }
            proof {
                if !done {
                    assert(j == sequences@.len());
                }
            }
            d = depth;
        }
        proof {
            if !done {
                assert(d == self.max_depth);
            }
        }
        all
    }
}

/// Whether `s` leaves room for `depth` steps of at most the largest trial
/// amount and time step each, so that replaying them stays within `i128`.
pub open spec fn has_headroom(s: ProtocolView, depth: int) -> bool {
    &&& i128::MIN + 100000 * depth <= s.total_assets <= i128::MAX - 100000 * depth
    &&& s.interest_index <= i128::MAX - 10000 * depth
}

proof fn lemma_flatten_bounded(s: Seq<Seq<StateAction>>)
    requires
        forall|i: int| 0 <= i < s.len() ==> all_bounded_from(#[trigger] s[i], 0),
    ensures
        all_bounded_from(s.flatten(), 0),
    decreases s.len(),
{
    if s.len() > 0 {
        lemma_flatten_bounded(s.drop_first());
        let f = s.first() + s.drop_first().flatten();
        assert(all_bounded_from(s[0], 0));
        assert forall|j: int| 0 <= j < f.len() implies action_bounded(#[trigger] f[j]) by {
            if j < s[0].len() {
                assert(f[j] == s[0][j]);
            } else {
                assert(f[j] == s.drop_first().flatten()[j - s[0].len()]);
            }
        }
    }
}

proof fn lemma_kind_actions_bounded(kind: ActionKind, users: Seq<AccountId>, assets: Seq<AccountId>)
    ensures
        all_bounded_from(kind_actions(kind, users, assets), 0),
{
    let inner = |u: AccountId|
        assets.map_values(
            |a: AccountId| trial_amounts().map_values(|m: i128| kind_action(kind, u, a, m)),
        ).flatten();
    assert forall|i: int| 0 <= i < users.len() implies all_bounded_from(
        #[trigger] users.map_values(inner)[i],
        0,
    ) by {
        let u = users[i];
        let per_asset = assets.map_values(
            |a: AccountId| trial_amounts().map_values(|m: i128| kind_action(kind, u, a, m)),
        );
        assert forall|j: int| 0 <= j < per_asset.len() implies all_bounded_from(#[trigger] per_asset[j], 0) by {
            let a = assets[j];
            let amounts = trial_amounts().map_values(|m: i128| kind_action(kind, u, a, m));
            assert(per_asset[j] == amounts);
            assert forall|t: int| 0 <= t < amounts.len() implies action_bounded(#[trigger] amounts[t]) by {
                assert(0 <= trial_amounts()[t] <= 100000);
            }
        }
        lemma_flatten_bounded(per_asset);
    }
    lemma_flatten_bounded(users.map_values(inner));
}

proof fn lemma_all_actions_bounded(users: Seq<AccountId>, assets: Seq<AccountId>)
    ensures
        all_bounded_from(all_actions(users, assets), 0),
{
    if users.len() > 0 && assets.len() > 0 {
        lemma_kind_actions_bounded(ActionKind::Deposit, users, assets);
        lemma_kind_actions_bounded(ActionKind::Withdraw, users, assets);
        lemma_kind_actions_bounded(ActionKind::Repay, users, assets);
        lemma_borrow_actions_bounded(users, assets);
        let b = borrow_actions(users, assets);
        let all = all_actions(users, assets);
        let k1 = kind_actions(ActionKind::Deposit, users, assets);
        let k2 = kind_actions(ActionKind::Withdraw, users, assets);
        let k3 = kind_actions(ActionKind::Repay, users, assets);
        let t = time_actions();
        assert forall|j: int| 0 <= j < all.len() implies action_bounded(#[trigger] all[j]) by {
            if j < k1.len() {
                assert(all[j] == k1[j]);
            } else if j < k1.len() + k2.len() {
                assert(all[j] == k2[j - k1.len()]);
            } else if j < k1.len() + k2.len() + b.len() {
                assert(all[j] == b[j - k1.len() - k2.len()]);
            } else if j < k1.len() + k2.len() + b.len() + k3.len() {
                assert(all[j] == k3[j - k1.len() - k2.len() - b.len()]);
            } else {
                assert(all[j] == t[j - k1.len() - k2.len() - b.len() - k3.len()]);
            }
        }
    }
}

proof fn lemma_borrow_actions_bounded(users: Seq<AccountId>, assets: Seq<AccountId>)
    ensures
        all_bounded_from(borrow_actions(users, assets), 0),
{
    let per_user = |u: AccountId| assets.map_values(|d: AccountId| borrows_for(u, d, assets)).flatten();
    assert forall|i: int| 0 <= i < users.len() implies all_bounded_from(
        #[trigger] users.map_values(per_user)[i],
        0,
    ) by {
        let u = users[i];
        let per_debt = assets.map_values(|d: AccountId| borrows_for(u, d, assets));
        assert forall|j: int| 0 <= j < per_debt.len() implies all_bounded_from(#[trigger] per_debt[j], 0) by {
            let d = assets[j];
            let per_collateral = assets.map_values(
                |c: AccountId|
                    if d@ != c@ {
                        trial_amounts().map_values(
                            |m: i128|
                                StateAction::Borrow { user: u, debt_asset: d, collateral_asset: c, amount: m },
                        )
                    } else {
                        Seq::empty()
                    },
            );
            assert(per_debt[j] == per_collateral.flatten());
            assert forall|t: int| 0 <= t < per_collateral.len() implies all_bounded_from(
                #[trigger] per_collateral[t],
                0,
            ) by {
                let inner = per_collateral[t];
                assert forall|x: int| 0 <= x < inner.len() implies action_bounded(#[trigger] inner[x]) by {
                    assert(inner[x] is Borrow);
                }
            }
            lemma_flatten_bounded(per_collateral);
        }
        lemma_flatten_bounded(per_debt);
    }
    lemma_flatten_bounded(users.map_values(per_user));
}

proof fn lemma_extensions_bounded(prefix: Seq<StateAction>, acts: Seq<StateAction>, remaining: nat)
    requires
        all_bounded_from(prefix, 0),
        all_bounded_from(acts, 0),
    ensures
        forall|i: int|
            0 <= i < extensions(prefix, acts, remaining).len() ==> {
                &&& (#[trigger] extensions(prefix, acts, remaining)[i]).len() == prefix.len() + remaining
                &&& all_bounded_from(extensions(prefix, acts, remaining)[i], 0)
            },
    decreases remaining, 0nat,
{
    if remaining > 0 {
        lemma_extensions_upto_bounded(prefix, acts, (remaining - 1) as nat, acts.len());
        assert(extensions(prefix, acts, remaining) == extensions_upto(
            prefix,
            acts,
            (remaining - 1) as nat,
            acts.len(),
        ));
    } else if prefix.len() > 0 {
        assert(extensions(prefix, acts, remaining) == seq![prefix]);
        assert(extensions(prefix, acts, remaining)[0] == prefix);
    } else {
        assert(extensions(prefix, acts, remaining).len() == 0);
    }
}

proof fn lemma_extensions_upto_bounded(
    prefix: Seq<StateAction>,
    acts: Seq<StateAction>,
    remaining: nat,
    k: nat,
)
    requires
        all_bounded_from(prefix, 0),
        all_bounded_from(acts, 0),
    ensures
        forall|i: int|
            0 <= i < extensions_upto(prefix, acts, remaining, k).len() ==> {
                &&& (#[trigger] extensions_upto(prefix, acts, remaining, k)[i]).len() == prefix.len() + 1
                    + remaining
                &&& all_bounded_from(extensions_upto(prefix, acts, remaining, k)[i], 0)
            },
    decreases remaining, k,
{
    if k > 0 && k <= acts.len() {
        let longer = prefix.push(acts[k - 1]);
        assert(action_bounded(acts[k - 1]));
        assert(all_bounded_from(longer, 0)) by {
            assert forall|j: int| 0 <= j < longer.len() implies action_bounded(#[trigger] longer[j]) by {
                if j < prefix.len() {
                    assert(longer[j] == prefix[j]);
                }
            }
        }
        lemma_extensions_upto_bounded(prefix, acts, remaining, (k - 1) as nat);
        lemma_extensions_bounded(longer, acts, remaining);
        let a = extensions_upto(prefix, acts, remaining, (k - 1) as nat);
        let b = extensions(longer, acts, remaining);
        assert(extensions_upto(prefix, acts, remaining, k) == a + b);
        assert forall|i: int| 0 <= i < (a + b).len() implies {
            &&& (#[trigger] (a + b)[i]).len() == prefix.len() + 1 + remaining
            &&& all_bounded_from((a + b)[i], 0)
        } by {
            if i < a.len() {
                assert((a + b)[i] == a[i]);
            } else {
                assert((a + b)[i] == b[i - a.len()]);
            }
        }
    }
}

proof fn lemma_sequences_upto_bounded(acts: Seq<StateAction>, depth: nat)
    requires
        all_bounded_from(acts, 0),
    ensures
        forall|i: int|
            0 <= i < sequences_upto(acts, depth).len() ==> {
                &&& (#[trigger] sequences_upto(acts, depth)[i]).len() <= depth
                &&& all_bounded_from(sequences_upto(acts, depth)[i], 0)
            },
    decreases depth,
{
    if depth > 0 {
        lemma_sequences_upto_bounded(acts, (depth - 1) as nat);
        lemma_extensions_bounded(Seq::empty(), acts, depth);
        let a = sequences_upto(acts, (depth - 1) as nat);
        let b = extensions(Seq::empty(), acts, depth);
        assert forall|i: int| 0 <= i < (a + b).len() implies {
            &&& (#[trigger] (a + b)[i]).len() <= depth
            &&& all_bounded_from((a + b)[i], 0)
        } by {
            if i < a.len() {
                assert((a + b)[i] == a[i]);
            } else {
                assert((a + b)[i] == b[i - a.len()]);
            }
        }
    }
}

proof fn lemma_replay_within(init: ProtocolView, acts: Seq<StateAction>, k: int)
    requires
        all_bounded_from(acts, 0),
        0 <= k <= acts.len(),
        has_headroom(init, acts.len() as int),
    ensures
        init.total_assets - 100000 * k <= replay(init, acts.take(k)).total_assets <= init.total_assets + 100000 * k,
        init.interest_index <= replay(init, acts.take(k)).interest_index <= init.interest_index + 10000 * k,
    decreases k,
{
    if k > 0 {
        lemma_replay_within(init, acts, k - 1);
        assert(acts.take(k).drop_last() == acts.take(k - 1));
        assert(acts.take(k).last() == acts[k - 1]);
        assert(action_bounded(acts[k - 1]));
    } else {
        assert(acts.take(0) == Seq::<StateAction>::empty());
    }
}

/// Any sequence of bounded actions (amounts up to the largest trial amount,
/// time steps up to the largest trial step) replays without overflow on a
/// state with headroom for its length.
pub proof fn lemma_headroom_makes_replay_computable(init: ProtocolView, acts: Seq<StateAction>)
    requires
        all_bounded_from(acts, 0),
        has_headroom(init, acts.len() as int),
    ensures
        replay_computable(init, acts),
{
    assert forall|k: int| 0 <= k < acts.len() implies apply_computable(
        replay(init, acts.take(k)),
        #[trigger] acts[k],
    ) by {
        lemma_replay_within(init, acts, k);
        assert(action_bounded(acts[k]));
    }
}

/// Exploring from a state with headroom for the maximum depth never
/// overflows: every sequence the explorer generates replays within `i128`.
pub proof fn lemma_headroom_suffices_for_exploration(e: ExplorerView, init: ProtocolView)
    requires
        has_headroom(init, e.max_depth as int),
    ensures
        forall|k: int|
            0 <= k < explorer_sequences(e).len() ==> replay_computable(
                init,
                #[trigger] explorer_sequences(e)[k],
            ),
{
    let acts = all_actions(e.users, e.assets);
    lemma_all_actions_bounded(e.users, e.assets);
    lemma_sequences_upto_bounded(acts, e.max_depth as nat);
    assert forall|k: int| 0 <= k < explorer_sequences(e).len() implies replay_computable(
        init,
        #[trigger] explorer_sequences(e)[k],
    ) by {
        let s = explorer_sequences(e)[k];
        assert(s.len() <= e.max_depth);
        assert(has_headroom(init, s.len() as int)) by {
            assert(100000 * s.len() <= 100000 * e.max_depth) by (nonlinear_arith)
                requires s.len() <= e.max_depth;
            assert(10000 * s.len() <= 10000 * e.max_depth) by (nonlinear_arith)
                requires s.len() <= e.max_depth;
        }
        lemma_headroom_makes_replay_computable(init, s);
    }
}

/// An exploration ends either with the confidence threshold reached or with
/// every generated sequence executed.
pub proof fn lemma_exploration_reaches_confidence_or_exhausts(e: ExplorerView)
    ensures
        e.execution_count + explorer_run_length(e) >= e.confidence_threshold
            || explorer_run_length(e) == explorer_sequences(e).len(),
        0 <= explorer_run_length(e) <= explorer_sequences(e).len(),
{
}

/// Whether `state` leaves room for `depth` bounded steps (see
/// `has_headroom`); exploring to that depth from such a state never
/// overflows.
pub fn state_has_headroom(state: &ProtocolState, depth: usize) -> (r: bool)
    ensures
        r == has_headroom(state@, depth as int),
{
    let d = depth as i128;
    let room: i128 = 100000 * d;
    let time_room: i128 = 10000 * d;
    i128::MIN + room <= state.total_assets && state.total_assets <= i128::MAX - room
        && state.interest_index <= i128::MAX - time_room
}

/// Replaying a sequence records one step per action, chained: the first
/// step starts from the initial state, each step's state after is its state
/// before with its action applied, its violations are those of the state
/// after, and each step starts where the previous one ended.
pub proof fn lemma_replay_steps_chain(init: ProtocolView, acts: Seq<StateAction>)
    ensures
        replay_transitions(init, acts).len() == acts.len(),
        acts.len() > 0 ==> replay_transitions(init, acts)[0].pre_state == init,
        forall|i: int|
            0 <= i < acts.len() ==> {
                &&& (#[trigger] replay_transitions(init, acts)[i]).action == acts[i]
                &&& replay_transitions(init, acts)[i].post_state == applied(
                    replay_transitions(init, acts)[i].pre_state,
                    acts[i],
                )
                &&& replay_transitions(init, acts)[i].violations == state_violations(
                    replay_transitions(init, acts)[i].post_state,
                )
            },
        forall|i: int|
            0 <= i < acts.len() - 1 ==> (#[trigger] replay_transitions(init, acts)[i + 1]).pre_state
                == replay_transitions(init, acts)[i].post_state,
{
    let t = replay_transitions(init, acts);
    if acts.len() > 0 {
        assert(acts.take(0) =~= Seq::<StateAction>::empty());
        assert(t[0].pre_state == replay(init, acts.take(0)));
    }
    assert forall|i: int| 0 <= i < acts.len() - 1 implies (#[trigger] t[i + 1]).pre_state == t[i].post_state by {
        assert(acts.take(i + 1).drop_last() =~= acts.take(i));
        assert(acts.take(i + 1).last() == acts[i]);
    }
}

/// The sum `n^1 + n^2 + ... + n^depth`.
pub open spec fn power_sum(n: int, depth: nat) -> int
    decreases depth,
{
    if depth == 0 {
        0
    } else {
        power_sum(n, (depth - 1) as nat) + pow(n, depth)
    }
}

proof fn lemma_extensions_count(prefix: Seq<StateAction>, acts: Seq<StateAction>, remaining: nat)
    requires
        prefix.len() > 0 || remaining > 0,
    ensures
        extensions(prefix, acts, remaining).len() == pow(acts.len() as int, remaining),
    decreases remaining, 0nat,
{
    reveal(pow);
    if remaining > 0 {
        lemma_extensions_upto_count(prefix, acts, (remaining - 1) as nat, acts.len());
        assert(pow(acts.len() as int, remaining) == acts.len() * pow(
            acts.len() as int,
            (remaining - 1) as nat,
        ));
    } else {
        assert(pow(acts.len() as int, 0) == 1);
    }
}

proof fn lemma_extensions_upto_count(
    prefix: Seq<StateAction>,
    acts: Seq<StateAction>,
    remaining: nat,
    k: nat,
)
    requires
        k <= acts.len(),
    ensures
        extensions_upto(prefix, acts, remaining, k).len() == k * pow(acts.len() as int, remaining),
    decreases remaining, k,
{
    if k > 0 {
        lemma_extensions_upto_count(prefix, acts, remaining, (k - 1) as nat);
        lemma_extensions_count(prefix.push(acts[k - 1]), acts, remaining);
        let p = pow(acts.len() as int, remaining);
        assert((k - 1) * p + p == k * p) by (nonlinear_arith);
        assert(extensions_upto(prefix, acts, remaining, k) == extensions_upto(
            prefix,
            acts,
            remaining,
            (k - 1) as nat,
        ) + extensions(prefix.push(acts[k - 1]), acts, remaining));
    } else {
        assert(0 * pow(acts.len() as int, remaining) == 0);
    }
}

/// An explorer walks through `n + n^2 + ... + n^depth` sequences, `n` being
/// the number of actions a single step may take. Starting below the
/// threshold, an exploration executes as many of them as it takes to reach
/// the threshold, or all of them if there are fewer, and then reports
/// confidence exactly when the threshold was reached.
pub proof fn lemma_sequence_count(e: ExplorerView)
    ensures
        explorer_sequences(e).len() == power_sum(all_actions(e.users, e.assets).len() as int, e.max_depth as nat),
        e.execution_count < e.confidence_threshold ==> e.execution_count + explorer_run_length(e) == if e.execution_count
            + explorer_sequences(e).len() < e.confidence_threshold {
            e.execution_count + explorer_sequences(e).len()
        } else {
            e.confidence_threshold as int
        },
{
    lemma_sequences_upto_count(all_actions(e.users, e.assets), e.max_depth as nat);
}

proof fn lemma_sequences_upto_count(acts: Seq<StateAction>, depth: nat)
    ensures
        sequences_upto(acts, depth).len() == power_sum(acts.len() as int, depth),
    decreases depth,
{
    if depth > 0 {
        lemma_sequences_upto_count(acts, (depth - 1) as nat);
        lemma_extensions_count(Seq::empty(), acts, depth);
    }
}

} // verus!
