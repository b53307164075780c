//! Debt positions tokenized as transferable tokens: each token records one
//! borrower's debt position, belongs to exactly one owner, and can be
//! minted, transferred (subject to a global pause, a block list and the
//! position's liquidation status) and burned.
//!
//! `DebtTokenRegistry` holds the module's persistent state. Authorization of
//! the acting address is checked by the host before these operations run;
//! the current ledger time is passed in; the stored admin is read by the
//! caller and passed in.
use vstd::prelude::*;
use std::collections::HashMap;
use crate::address::{AccountId, duplicate_opt, opt_view, same_opt};

verus! {

broadcast use vstd::std_specs::hash::group_hash_axioms;

/// Debt position information carried by a token.
#[derive(Debug)]
pub struct DebtPosition {
    /// Original borrower address
    pub borrower: AccountId,
    /// Principal debt amount
    pub principal: i128,
    /// Accrued interest
    pub accrued_interest: i128,
    /// Collateral asset backing this debt
    pub collateral_asset: Option<AccountId>,
    /// Collateral amount
    pub collateral_amount: i128,
    /// Interest rate at borrowing (basis points)
    pub interest_rate_bps: i128,
    /// Last accrual timestamp
    pub last_accrual_time: u64,
    /// Whether position is currently liquidatable
    pub is_liquidatable: bool,
    /// Creation timestamp
    pub created_at: u64,
    /// Last updated timestamp
    pub updated_at: u64,
}

impl DebtPosition {
    /// A copy of this position.
    pub fn duplicate(&self) -> (p: DebtPosition)
        ensures
            p == *self,
    {
        DebtPosition {
            borrower: self.borrower.duplicate(),
            principal: self.principal,
            accrued_interest: self.accrued_interest,
            collateral_asset: duplicate_opt(&self.collateral_asset),
            collateral_amount: self.collateral_amount,
            interest_rate_bps: self.interest_rate_bps,
            last_accrual_time: self.last_accrual_time,
            is_liquidatable: self.is_liquidatable,
            created_at: self.created_at,
            updated_at: self.updated_at,
        }
    }
}

/// Errors that can occur during debt token operations
#[derive(Debug, Clone, Copy, PartialEq, Eq, Structural)]
pub enum DebtTokenError {
    /// Token ID does not exist
    TokenNotFound,
    /// Caller is not authorized to perform operation
    Unauthorized,
    /// Transfer is currently paused
    TransferPaused,
    /// Transfer to blocked address
    TransferBlocked,
    /// Cannot transfer during active liquidation
    LiquidationInProgress,
    /// Invalid token ID
    InvalidTokenId,
    /// Position is undercollateralized
    Undercollateralized,
    /// Arithmetic overflow occurred
    Overflow,
    /// Cannot transfer to zero address
    ZeroAddress,
    /// Position already tokenized
    AlreadyTokenized,
    /// Position does not exist for tokenization
    PositionNotFound,
}

/// The token list of `owner` in an owner table (empty if none is stored).
pub open spec fn tokens_in(owners: Map<Seq<char>, Seq<u64>>, owner: Seq<char>) -> Seq<u64> {
    if owners.contains_key(owner) {
        owners[owner]
    } else {
        Seq::empty()
    }
}

/// The index of `id` in a list that holds it.
pub open spec fn index_in(s: Seq<u64>, id: u64) -> int {
    choose|i: int| 0 <= i < s.len() && s[i] == id
}

/// The persistent state of the debt token module.
pub struct DebtTokenRegistry {
    next_token_id: u64,
    positions: HashMap<u64, DebtPosition>,
    owner_tokens: Vec<(AccountId, Vec<u64>)>,
    owners: Ghost<Map<Seq<char>, Seq<u64>>>,
    transfer_paused: bool,
    blocked: Vec<AccountId>,
    total_supply: u64,
}

/// The owner table `v` (one entry per owner) represents the map `m`.
pub open spec fn owner_table_represents(
    v: Seq<(AccountId, Vec<u64>)>,
    m: Map<Seq<char>, Seq<u64>>,
) -> bool {
    &&& forall|i: int, j: int| 0 <= i < j < v.len() ==> (#[trigger] v[i]).0@ != (#[trigger] v[j]).0@
    &&& forall|i: int| 0 <= i < v.len() ==> m.contains_key((#[trigger] v[i]).0@)
    &&& forall|i: int| 0 <= i < v.len() ==> m[(#[trigger] v[i]).0@] == v[i].1@
    &&& forall|k: Seq<char>| #[trigger] m.contains_key(k) ==> exists|i: int| 0 <= i < v.len() && (#[trigger] v[i]).0@ == k
}

/// No address occurs twice in `v`.
pub open spec fn distinct_addresses(v: Seq<AccountId>) -> bool {
    forall|i: int, j: int| 0 <= i < j < v.len() ==> (#[trigger] v[i])@ != (#[trigger] v[j])@
}

/// The creation or update stamp recorded at ledger time `now`: the time
/// itself, except that a ledger still at time 0 stamps 1, so that a recorded
/// creation or update is never at 0.
pub open spec fn record_stamp(now: u64) -> u64 {
    if now == 0 {
        1
    } else {
        now
    }
}

/// The stamp recorded for a creation or an update at ledger time `now`
/// (see `record_stamp`).
fn stamp_of(now: u64) -> (t: u64)
    ensures
        t == record_stamp(now),
        t > 0,
{
    if now == 0 {
        1
    } else {
        now
    }
}

/// The position a mint records: no interest or collateral amount yet, not
/// liquidatable, interest accrued up to the mint time, and created and
/// updated at the mint's stamp.
pub open spec fn minted_position(
    user: AccountId,
    collateral_asset: Option<AccountId>,
    principal: i128,
    interest_rate_bps: i128,
    now: u64,
) -> DebtPosition {
    DebtPosition {
        borrower: user,
        principal,
        accrued_interest: 0,
        collateral_asset,
        collateral_amount: 0,
        interest_rate_bps,
        last_accrual_time: now,
        is_liquidatable: false,
        created_at: record_stamp(now),
        updated_at: record_stamp(now),
    }
}

/// Every token in `ids` is held by exactly one owner, exactly once, and
/// owners hold only tokens in `ids`.
pub open spec fn ownership_consistent(ids: Set<u64>, owners: Map<Seq<char>, Seq<u64>>) -> bool {
    &&& forall|o: Seq<char>| #[trigger] owners.contains_key(o) ==> owners[o].no_duplicates()
    &&& forall|o: Seq<char>, i: int|
        owners.contains_key(o) && 0 <= i < owners[o].len() ==> ids.contains(#[trigger] owners[o][i])
    &&& forall|id: u64| #[trigger]
        ids.contains(id) ==> exists|o: Seq<char>|
            owners.contains_key(o) && #[trigger] owners[o].contains(id)
    &&& forall|o1: Seq<char>, o2: Seq<char>, id: u64|
        owners.contains_key(o1) && owners.contains_key(o2) && #[trigger] owners[o1].contains(id)
            && #[trigger] owners[o2].contains(id) ==> o1 == o2
}

/// The owner table after `owner` gives up `id`.
pub open spec fn without_token(owners: Map<Seq<char>, Seq<u64>>, owner: Seq<char>, id: u64) -> Map<
    Seq<char>,
    Seq<u64>,
> {
    let s = tokens_in(owners, owner);
    owners.insert(owner, s.remove(index_in(s, id)))
}

/// The owner table after `id` moves from `from` to the end of `to`'s list.
pub open spec fn moved_token(
    owners: Map<Seq<char>, Seq<u64>>,
    from: Seq<char>,
    to: Seq<char>,
    id: u64,
) -> Map<Seq<char>, Seq<u64>> {
    let m1 = without_token(owners, from, id);
    m1.insert(to, tokens_in(m1, to).push(id))
}

/// Giving up a token removes exactly that token: afterwards no owner holds
/// it, and every other token is held by the same owners as before.
proof fn lemma_without_token(ids: Set<u64>, owners: Map<Seq<char>, Seq<u64>>, owner: Seq<char>, id: u64)
    requires
        ownership_consistent(ids, owners),
        tokens_in(owners, owner).contains(id),
    ensures
        forall|o: Seq<char>| #[trigger]
            without_token(owners, owner, id).contains_key(o) ==> without_token(owners, owner, id)[o].no_duplicates(),
        forall|o: Seq<char>| !(#[trigger] tokens_in(without_token(owners, owner, id), o)).contains(id),
        forall|o: Seq<char>, x: u64|
            x != id ==> (#[trigger] tokens_in(without_token(owners, owner, id), o).contains(x) <==> tokens_in(
                owners,
                o,
            ).contains(x)),
        without_token(owners, owner, id).dom() == owners.dom().insert(owner),
{
    let s = tokens_in(owners, owner);
    let i = index_in(s, id);
    assert(0 <= i < s.len() && s[i] == id);
    assert(owners.contains_key(owner));
    let r = s.remove(i);
    let m1 = without_token(owners, owner, id);
    assert(s.no_duplicates());
    assert(r.no_duplicates()) by {
        assert forall|a: int, b: int| 0 <= a < r.len() && 0 <= b < r.len() && a != b implies r[a] != r[b] by {
            let a2 = if a < i { a } else { a + 1 };
            let b2 = if b < i { b } else { b + 1 };
            assert(r[a] == s[a2] && r[b] == s[b2]);
        }
    }
    assert forall|o: Seq<char>| !(#[trigger] tokens_in(m1, o)).contains(id) by {
        if o == owner {
            if r.contains(id) {
                let a = choose|a: int| 0 <= a < r.len() && r[a] == id;
                let a2 = if a < i { a } else { a + 1 };
                assert(s[a2] == id);
            }
        } else if owners.contains_key(o) && owners[o].contains(id) {
            assert(owners[owner].contains(id));
        }
    }
    assert forall|o: Seq<char>, x: u64|
        x != id implies (#[trigger] tokens_in(m1, o).contains(x) <==> tokens_in(owners, o).contains(x)) by {
        if o == owner {
            if r.contains(x) {
                let a = choose|a: int| 0 <= a < r.len() && r[a] == x;
                let a2 = if a < i { a } else { a + 1 };
                assert(s[a2] == x);
            }
            if s.contains(x) {
                let a = choose|a: int| 0 <= a < s.len() && s[a] == x;
                assert(a != i);
                let a2 = if a < i { a } else { a - 1 };
                assert(r[a2] == x);
            }
        }
    }
    assert(m1.dom() =~= owners.dom().insert(owner));
}

/// Burning a held token keeps ownership consistent over the remaining ids.
proof fn lemma_burn_keeps_ownership(ids: Set<u64>, owners: Map<Seq<char>, Seq<u64>>, owner: Seq<char>, id: u64)
    requires
        ownership_consistent(ids, owners),
        tokens_in(owners, owner).contains(id),
    ensures
        ownership_consistent(ids.remove(id), without_token(owners, owner, id)),
{
    lemma_without_token(ids, owners, owner, id);
    let m1 = without_token(owners, owner, id);
    let ids1 = ids.remove(id);
    assert forall|o: Seq<char>, i: int|
        m1.contains_key(o) && 0 <= i < m1[o].len() implies ids1.contains(#[trigger] m1[o][i]) by {
        let x = m1[o][i];
        assert(tokens_in(m1, o).contains(x));
        assert(x != id);
        assert(tokens_in(owners, o).contains(x));
        let j = choose|j: int| 0 <= j < owners[o].len() && owners[o][j] == x;
        assert(ids.contains(owners[o][j]));
    }
    assert forall|x: u64| #[trigger] ids1.contains(x) implies exists|o: Seq<char>|
        m1.contains_key(o) && #[trigger] m1[o].contains(x) by {
        let o = choose|o: Seq<char>| owners.contains_key(o) && #[trigger] owners[o].contains(x);
        assert(tokens_in(owners, o).contains(x));
        assert(tokens_in(m1, o).contains(x));
        assert(m1.contains_key(o) && m1[o].contains(x));
    }
    assert forall|o1: Seq<char>, o2: Seq<char>, x: u64|
        m1.contains_key(o1) && m1.contains_key(o2) && #[trigger] m1[o1].contains(x)
            && #[trigger] m1[o2].contains(x) implies o1 == o2 by {
        assert(tokens_in(m1, o1).contains(x));
        assert(tokens_in(m1, o2).contains(x));
        assert(x != id);
        assert(tokens_in(owners, o1).contains(x));
        assert(tokens_in(owners, o2).contains(x));
    }
}

/// Moving a held token to another owner keeps ownership consistent.
proof fn lemma_move_keeps_ownership(
    ids: Set<u64>,
    owners: Map<Seq<char>, Seq<u64>>,
    from: Seq<char>,
    to: Seq<char>,
    id: u64,
)
    requires
        ownership_consistent(ids, owners),
        tokens_in(owners, from).contains(id),
    ensures
        ownership_consistent(ids, moved_token(owners, from, to, id)),
        forall|o: Seq<char>, x: u64|
            #[trigger] tokens_in(moved_token(owners, from, to, id), o).contains(x) <==> if x == id {
                o == to
            } else {
                tokens_in(owners, o).contains(x)
            },
{
    lemma_without_token(ids, owners, from, id);
    let m1 = without_token(owners, from, id);
    let m2 = moved_token(owners, from, to, id);
    let t = tokens_in(m1, to);
    let t2 = t.push(id);
    assert(!t.contains(id));
    assert(t.no_duplicates()) by {
        if m1.contains_key(to) {
        }
    }
    assert(t2.no_duplicates()) by {
        assert forall|a: int, b: int| 0 <= a < t2.len() && 0 <= b < t2.len() && a != b implies t2[a] != t2[b] by {
            if a == t.len() {
                assert(t.contains(t2[b]) ==> t2[b] != id);
                assert(t[b] == t2[b]);
            } else if b == t.len() {
                assert(t[a] == t2[a]);
            }
        }
    }
    assert forall|o: Seq<char>, x: u64|
        #[trigger] tokens_in(m2, o).contains(x) <==> if x == id {
            o == to
        } else {
            tokens_in(owners, o).contains(x)
        } by {
        if o == to {
            if x == id {
                assert(t2[t.len() as int] == id);
            } else {
                if t2.contains(x) {
                    let a = choose|a: int| 0 <= a < t2.len() && t2[a] == x;
                    assert(t[a] == x);
                }
                if t.contains(x) {
                    let a = choose|a: int| 0 <= a < t.len() && t[a] == x;
                    assert(t2[a] == x);
                }
            }
        } else {
            assert(tokens_in(m2, o) == tokens_in(m1, o));
            if x == id {
                assert(!tokens_in(m1, o).contains(id));
            } else {
                assert(tokens_in(m1, o).contains(x) <==> tokens_in(owners, o).contains(x));
            }
        }
    }
    assert forall|o: Seq<char>, i: int|
        m2.contains_key(o) && 0 <= i < m2[o].len() implies ids.contains(#[trigger] m2[o][i]) by {
        let x = m2[o][i];
        assert(tokens_in(m2, o).contains(x));
        if x != id {
            assert(tokens_in(owners, o).contains(x));
            let j = choose|j: int| 0 <= j < owners[o].len() && owners[o][j] == x;
            assert(ids.contains(owners[o][j]));
        } else {
            assert(tokens_in(owners, from).contains(id));
            let j = choose|j: int| 0 <= j < owners[from].len() && owners[from][j] == id;
            assert(ids.contains(owners[from][j]));
        }
    }
    assert forall|x: u64| #[trigger] ids.contains(x) implies exists|o: Seq<char>|
        m2.contains_key(o) && #[trigger] m2[o].contains(x) by {
        if x == id {
            assert(tokens_in(m2, to).contains(x));
            assert(m2.contains_key(to) && m2[to].contains(x));
        } else {
            let o = choose|o: Seq<char>| owners.contains_key(o) && #[trigger] owners[o].contains(x);
            assert(tokens_in(owners, o).contains(x));
            assert(tokens_in(m2, o).contains(x));
            assert(m2.contains_key(o) && m2[o].contains(x));
        }
    }
    assert forall|o: Seq<char>| #[trigger] m2.contains_key(o) implies m2[o].no_duplicates() by {
        if o != to {
            assert(m1.contains_key(o));
        }
    }
    assert forall|o1: Seq<char>, o2: Seq<char>, x: u64|
        m2.contains_key(o1) && m2.contains_key(o2) && #[trigger] m2[o1].contains(x)
            && #[trigger] m2[o2].contains(x) implies o1 == o2 by {
        assert(tokens_in(m2, o1).contains(x));
        assert(tokens_in(m2, o2).contains(x));
        if x != id {
            assert(tokens_in(owners, o1).contains(x));
            assert(tokens_in(owners, o2).contains(x));
        }
    }
}

impl DebtTokenRegistry {
    /// Whether `user` already owns a token for a position of theirs backed
    /// by `collateral`.
    pub open spec fn already_tokenized(&self, user: Seq<char>, collateral: Option<Seq<char>>) -> bool {
        exists|i: int|
            0 <= i < self.tokens_of(user).len() && {
                let id = #[trigger] self.tokens_of(user)[i];
                &&& self.positions().contains_key(id)
                &&& self.positions()[id].borrower@ == user
                &&& opt_view(self.positions()[id].collateral_asset) == collateral
            }
    }

    /// The token positions, by token id.
    pub closed spec fn positions(&self) -> Map<u64, DebtPosition> {
        self.positions@
    }

    /// The stored token list of each owner.
    pub closed spec fn owners(&self) -> Map<Seq<char>, Seq<u64>> {
        self.owners@
    }

    /// The token list of `owner` (empty if none is stored).
    pub open spec fn tokens_of(&self, owner: Seq<char>) -> Seq<u64> {
        tokens_in(self.owners(), owner)
    }

    /// The addresses that may not receive tokens.
    pub closed spec fn blocked_set(&self) -> Set<Seq<char>> {
        Set::new(|k: Seq<char>| exists|i: int| 0 <= i < self.blocked@.len() && self.blocked@[i]@ == k)
    }

    /// Whether transfers (and mints) are paused.
    pub closed spec fn paused(&self) -> bool {
        self.transfer_paused
    }

    /// The id the next minted token will receive.
    pub closed spec fn next_id(&self) -> u64 {
        self.next_token_id
    }

    /// The number of tokens in circulation.
    pub closed spec fn supply(&self) -> u64 {
        self.total_supply
    }

    /// Well-formedness: the tables are consistent, every existing token has
    /// exactly one owner holding it once, owners hold only existing tokens,
    /// ids are below the next id, and the supply counts the existing tokens.
    pub closed spec fn wf(&self) -> bool {
        &&& owner_table_represents(self.owner_tokens@, self.owners@)
        &&& distinct_addresses(self.blocked@)
        &&& self.next_token_id >= 1
        &&& self.positions@.dom().finite()
        &&& forall|id: u64| #[trigger]
            self.positions@.contains_key(id) ==> 1 <= id < self.next_token_id
        &&& self.total_supply == self.positions@.len()
        &&& self.total_supply < self.next_token_id
        &&& ownership_consistent(self.positions@.dom(), self.owners@)
    }

    /// An empty registry: no tokens, nothing blocked, transfers open, and
    /// the first token will receive id 1.
    pub fn new() -> (r: Self)
        ensures
            r.wf(),
            r.positions() == Map::<u64, DebtPosition>::empty(),
            r.owners() == Map::<Seq<char>, Seq<u64>>::empty(),
            r.blocked_set() == Set::<Seq<char>>::empty(),
            !r.paused(),
            r.next_id() == 1,
            r.supply() == 0,
    {
        let r = DebtTokenRegistry {
            next_token_id: 1,
            positions: HashMap::new(),
            owner_tokens: Vec::new(),
            owners: Ghost(Map::empty()),
            transfer_paused: false,
            blocked: Vec::new(),
            total_supply: 0,
        };
        proof {
            assert(r.blocked_set() =~= Set::<Seq<char>>::empty());
        }
        r
    }

    fn find_owner(&self, owner: &AccountId) -> (r: Option<usize>)
        requires
            owner_table_represents(self.owner_tokens@, self.owners@),
        ensures
            r matches Some(i) ==> i < self.owner_tokens@.len() && self.owner_tokens@[i as int].0@
                == owner@,
            r is None ==> !self.owners@.contains_key(owner@),
    {
        let mut i: usize = 0;
        while i < self.owner_tokens.len()
            invariant
                i <= self.owner_tokens@.len(),
                forall|j: int| 0 <= j < i ==> (#[trigger] self.owner_tokens@[j]).0@ != owner@,
            decreases self.owner_tokens@.len() - i,
        {
            if self.owner_tokens[i].0.same(owner) {
                return Some(i);
            }
            i = i + 1;
        }
        None
    }

    fn find_blocked(&self, address: &AccountId) -> (r: Option<usize>)
        ensures
            r matches Some(i) ==> i < self.blocked@.len() && self.blocked@[i as int]@ == address@,
            r is None ==> !self.blocked_set().contains(address@),
    {
        let mut i: usize = 0;
        while i < self.blocked.len()
            invariant
                i <= self.blocked@.len(),
                forall|j: int| 0 <= j < i ==> (#[trigger] self.blocked@[j])@ != address@,
            decreases self.blocked@.len() - i,
        {
            if self.blocked[i].same(address) {
                return Some(i);
            }
            i = i + 1;
        }
        None
    }

    /// Stores `list` as the token list of `owner`.
    fn set_owner_tokens(&mut self, owner: &AccountId, list: Vec<u64>)
        requires
            owner_table_represents(old(self).owner_tokens@, old(self).owners@),
        ensures
            owner_table_represents(final(self).owner_tokens@, final(self).owners@),
            final(self).owners@ == old(self).owners@.insert(owner@, list@),
            final(self).positions == old(self).positions,
            final(self).next_token_id == old(self).next_token_id,
            final(self).transfer_paused == old(self).transfer_paused,
            final(self).blocked == old(self).blocked,
            final(self).total_supply == old(self).total_supply,
    {
        let ghost new_list = list@;
        match self.find_owner(owner) {
            Some(i) => {
                let ghost old_table = self.owner_tokens@;
                let key = self.owner_tokens[i].0.duplicate();
                self.owner_tokens.set(i, (key, list));
                proof {
                    self.owners@ = self.owners@.insert(owner@, new_list);
                    let v = self.owner_tokens@;
                    assert(forall|j: int| 0 <= j < v.len() && j != i ==> v[j] == old_table[j]);
                    assert forall|k: Seq<char>| #[trigger] self.owners@.contains_key(k) implies exists|j: int|
                        0 <= j < v.len() && (#[trigger] v[j]).0@ == k by {
                        if k == owner@ {
                            assert(v[i as int].0@ == k);
                        } else {
                            let j = choose|j: int| 0 <= j < old_table.len() && (#[trigger] old_table[j]).0@ == k;
                            assert(v[j].0@ == k);
                        }
                    }
                }
            },
            None => {
                let ghost old_table = self.owner_tokens@;
                self.owner_tokens.push((owner.duplicate(), list));
                proof {
                    self.owners@ = self.owners@.insert(owner@, new_list);
                    let v = self.owner_tokens@;
                    assert(forall|j: int| 0 <= j < old_table.len() ==> v[j] == old_table[j]);
                    assert forall|k: Seq<char>| #[trigger] self.owners@.contains_key(k) implies exists|j: int|
                        0 <= j < v.len() && (#[trigger] v[j]).0@ == k by {
                        if k == owner@ {
                            assert(v[old_table.len() as int].0@ == k);
                        } else {
                            let j = choose|j: int| 0 <= j < old_table.len() && (#[trigger] old_table[j]).0@ == k;
                            assert(v[j].0@ == k);
                        }
                    }
                }
            },
        }
    }

    /// The debt position of a token, if the token exists.
    pub fn get_debt_position(&self, token_id: u64) -> (r: Option<DebtPosition>)
        ensures
            r == (if self.positions().contains_key(token_id) {
                Some(self.positions()[token_id])
            } else {
                None
            }),
    {
        match self.positions.get(&token_id) {
            Some(p) => Some(p.duplicate()),
            None => None,
        }
    }

    /// The tokens owned by `user`, in the order they were received.
    pub fn get_user_debt_tokens(&self, user: &AccountId) -> (r: Vec<u64>)
        requires
            self.wf(),
        ensures
            r@ == self.tokens_of(user@),
    {
        self.tokens_for(user)
    }

    fn tokens_for(&self, user: &AccountId) -> (r: Vec<u64>)
        requires
            owner_table_represents(self.owner_tokens@, self.owners@),
        ensures
            r@ == tokens_in(self.owners@, user@),
    {
        match self.find_owner(user) {
            Some(i) => self.owner_tokens[i].1.clone(),
            None => Vec::new(),
        }
    }

    /// The number of tokens in circulation.
    pub fn get_total_supply(&self) -> (r: u64)
        ensures
            r == self.supply(),
    {
        self.total_supply
    }

    /// Whether transfers are paused.
    pub fn is_transfer_paused(&self) -> (r: bool)
        ensures
            r == self.paused(),
    {
        self.transfer_paused
    }

    /// Whether `address` may not receive tokens.
    pub fn is_address_blocked(&self, address: &AccountId) -> (r: bool)
        ensures
            r == self.blocked_set().contains(address@),
    {
        match self.find_blocked(address) {
            Some(_) => true,
            None => false,
        }
    }

    /// The id the next minted token will receive.
    pub fn get_next_token_id(&self) -> (r: u64)
        ensures
            r == self.next_id(),
    {
        self.next_token_id
    }
}

impl DebtTokenRegistry {
    /// Mints a token for `user`'s debt position backed by `collateral_asset`.
    ///
    /// Refused while transfers are paused, when the user already holds a
    /// token for a position of theirs with the same collateral, and for a
    /// non-positive principal, and with `Overflow` once the id space is
    /// exhausted. Otherwise the token receives the next id, which no token
    /// has held before, the position is recorded at time `now`, the token is
    /// appended to the user's list, and the supply grows by one.
    pub fn mint_debt_token(
        &mut self,
        user: &AccountId,
        collateral_asset: Option<AccountId>,
        principal: i128,
        interest_rate_bps: i128,
        now: u64,
    ) -> (r: Result<u64, DebtTokenError>)
        requires
            old(self).wf(),
        ensures
            final(self).wf(),
            id_step(*old(self), *final(self), match r { Ok(id) => Some(id), Err(_) => None }),
            old(self).paused() ==> r == Err::<u64, _>(DebtTokenError::TransferPaused) && *final(self)
                == *old(self),
            !old(self).paused() && old(self).already_tokenized(user@, opt_view(collateral_asset))
                ==> r == Err::<u64, _>(DebtTokenError::AlreadyTokenized) && *final(self) == *old(self),
            !old(self).paused() && !old(self).already_tokenized(user@, opt_view(collateral_asset))
                && principal <= 0 ==> r == Err::<u64, _>(DebtTokenError::PositionNotFound)
                && *final(self) == *old(self),
            !old(self).paused() && !old(self).already_tokenized(user@, opt_view(collateral_asset))
                && principal > 0 && old(self).next_id() == u64::MAX ==> r == Err::<u64, _>(
                DebtTokenError::Overflow,
            ) && *final(self) == *old(self),
            !old(self).paused() && !old(self).already_tokenized(user@, opt_view(collateral_asset))
                && principal > 0 && old(self).next_id() < u64::MAX ==> {
                &&& r == Ok::<u64, DebtTokenError>(old(self).next_id())
                &&& !old(self).positions().contains_key(old(self).next_id())
                &&& final(self).positions() == old(self).positions().insert(
                    old(self).next_id(),
                    minted_position(*user, collateral_asset, principal, interest_rate_bps, now),
                )
                &&& final(self).owners() == old(self).owners().insert(
                    user@,
                    old(self).tokens_of(user@).push(old(self).next_id()),
                )
                &&& final(self).next_id() == old(self).next_id() + 1
                &&& final(self).supply() == old(self).supply() + 1
                &&& final(self).paused() == old(self).paused()
                &&& final(self).blocked_set() == old(self).blocked_set()
            },
    {
        if self.is_transfer_paused() {
            return Err(DebtTokenError::TransferPaused);
        }
        let existing = self.get_user_debt_tokens(user);
        let mut k: usize = 0;
        while k < existing.len()
            invariant
                *self == *old(self),
                self.wf(),
                !self.paused(),
                existing@ == self.tokens_of(user@),
                k <= existing@.len(),
                forall|j: int|
                    0 <= j < k ==> {
                        let id = #[trigger] existing@[j];
                        !(self.positions().contains_key(id) && self.positions()[id].borrower@
                            == user@ && opt_view(self.positions()[id].collateral_asset) == opt_view(
                            collateral_asset,
                        ))
                    },
            decreases existing@.len() - k,
        {
            let id = existing[k];
            match self.positions.get(&id) {
                Some(position) => {
                    if position.borrower.same(user) && same_opt(
                        &position.collateral_asset,
                        &collateral_asset,
                    ) {
                        return Err(DebtTokenError::AlreadyTokenized);
                    }
                },
                None => {},
            }
            k = k + 1;
        }
        if principal <= 0 {
            return Err(DebtTokenError::PositionNotFound);
        }
        let token_id = self.get_next_token_id();
        if token_id == u64::MAX {
            return Err(DebtTokenError::Overflow);
        }
        let ghost old_positions = self.positions@;
        let ghost old_owners = self.owners@;
        let position = DebtPosition {
            borrower: user.duplicate(),
            principal,
            accrued_interest: 0,
            collateral_asset,
            collateral_amount: 0,
            interest_rate_bps,
            last_accrual_time: now,
            is_liquidatable: false,
            created_at: stamp_of(now),
            updated_at: stamp_of(now),
        };
        self.positions.insert(token_id, position);
        let mut owner_tokens = self.tokens_for(user);
        owner_tokens.push(token_id);
        self.set_owner_tokens(user, owner_tokens);
        self.update_next_token_id(token_id + 1);
        self.update_total_supply(1);
        proof {
            let new_list = tokens_in(old_owners, user@).push(token_id);
            assert(!old_positions.contains_key(token_id));
            assert(self.positions@.dom() == old_positions.dom().insert(token_id));
            assert forall|o: Seq<char>| #[trigger] self.owners@.contains_key(o) implies self.owners@[o].no_duplicates() by {
                if o == user@ {
                    assert forall|i: int, j: int| 0 <= i < j < new_list.len() implies new_list[i] != new_list[j] by {
                        if j == new_list.len() - 1 && old_owners.contains_key(user@) {
                            assert(old_positions.contains_key(old_owners[user@][i]));
                        }
                    }
                }
            }
            assert forall|o: Seq<char>, i: int|
                self.owners@.contains_key(o) && 0 <= i < self.owners@[o].len() implies self.positions@.contains_key(
                #[trigger] self.owners@[o][i]) by {
                if o == user@ {
                    if i < new_list.len() - 1 {
                        assert(old_positions.contains_key(old_owners[user@][i]));
                    }
                } else {
                    assert(old_positions.contains_key(old_owners[o][i]));
                }
            }
            assert forall|id: u64| #[trigger] self.positions@.contains_key(id) implies exists|o: Seq<char>|
                self.owners@.contains_key(o) && #[trigger] self.owners@[o].contains(id) by {
                if id == token_id {
                    assert(self.owners@[user@][new_list.len() - 1] == id);
                    assert(self.owners@.contains_key(user@) && self.owners@[user@].contains(id));
                } else {
                    assert(old_positions.contains_key(id));
                    let o = choose|o: Seq<char>| old_owners.contains_key(o) && #[trigger] old_owners[o].contains(id);
                    if o == user@ {
                        let i = choose|i: int| 0 <= i < old_owners[o].len() && old_owners[o][i] == id;
                        assert(self.owners@[o][i] == id);
                    } else {
                        assert(self.owners@[o] == old_owners[o]);
                    }
                    assert(self.owners@.contains_key(o) && self.owners@[o].contains(id));
                }
            }
            assert forall|o1: Seq<char>, o2: Seq<char>, id: u64|
                self.owners@.contains_key(o1) && self.owners@.contains_key(o2) && #[trigger] self.owners@[o1].contains(id)
                    && #[trigger] self.owners@[o2].contains(id) implies o1 == o2 by {
                if id == token_id {
                    if o1 != user@ {
                        let i = choose|i: int| 0 <= i < old_owners[o1].len() && old_owners[o1][i] == id;
                        assert(old_positions.contains_key(old_owners[o1][i]));
                    }
                    if o2 != user@ {
                        let i = choose|i: int| 0 <= i < old_owners[o2].len() && old_owners[o2][i] == id;
                        assert(old_positions.contains_key(old_owners[o2][i]));
                    }
                } else {
                    let i1 = choose|i: int| 0 <= i < self.owners@[o1].len() && self.owners@[o1][i] == id;
                    let i2 = choose|i: int| 0 <= i < self.owners@[o2].len() && self.owners@[o2][i] == id;
                    if o1 == user@ {
                        assert(old_owners[o1].contains(id)) by {
                            assert(old_owners[o1][i1] == id);
                        }
                    }
                    if o2 == user@ {
                        assert(old_owners[o2].contains(id)) by {
                            assert(old_owners[o2][i2] == id);
                        }
                    }
                }
            }
        }
        Ok(token_id)
    }

    /// Records the id the next minted token will receive.
    fn update_next_token_id(&mut self, next_id: u64)
        ensures
            *final(self) == (DebtTokenRegistry { next_token_id: next_id, ..*old(self) }),
    {
        self.next_token_id = next_id;
    }

    /// Moves the supply by `delta`.
    fn update_total_supply(&mut self, delta: i64)
        requires
            delta != i64::MIN,
            0 <= old(self).total_supply + delta <= u64::MAX,
        ensures
            *final(self) == (DebtTokenRegistry {
                total_supply: (old(self).total_supply + delta) as u64,
                ..*old(self)
            }),
    {
        let current_supply = self.get_total_supply();
        let new_supply = if delta >= 0 {
            current_supply + delta as u64
        } else {
            current_supply - (-delta) as u64
        };
        self.total_supply = new_supply;
    }
}

/// Whether `id` is in `list`.
fn list_contains(list: &Vec<u64>, id: u64) -> (r: bool)
    ensures
        r == list@.contains(id),
{
    let mut i: usize = 0;
    while i < list.len()
        invariant
            i <= list@.len(),
            forall|j: int| 0 <= j < i ==> list@[j] != id,
        decreases list@.len() - i,
    {
        if list[i] == id {
            return true;
        }
        i = i + 1;
    }
    false
}

/// The first index of `id` in `list`.
fn position_of(list: &Vec<u64>, id: u64) -> (r: Option<usize>)
    ensures
        r matches Some(i) ==> i < list@.len() && list@[i as int] == id,
        r is None ==> !list@.contains(id),
{
    let mut i: usize = 0;
    while i < list.len()
        invariant
            i <= list@.len(),
            forall|j: int| 0 <= j < i ==> list@[j] != id,
        decreases list@.len() - i,
    {
        if list[i] == id {
            return Some(i);
        }
        i = i + 1;
    }
    None
}

/// In a list without duplicates, `index_in` is the position of the element.
proof fn lemma_index_in_unique(s: Seq<u64>, i: int)
    requires
        s.no_duplicates(),
        0 <= i < s.len(),
    ensures
        index_in(s, s[i]) == i,
{
    let j = index_in(s, s[i]);
    assert(0 <= j < s.len() && s[j] == s[i]);
}

impl DebtTokenRegistry {
    /// Why a transfer of `token_id` from `from` to `to` is refused, checked
    /// in this order, or `None` when it goes through.
    pub open spec fn transfer_refusal(&self, from: Seq<char>, to: Seq<char>, token_id: u64) -> Option<
        DebtTokenError,
    > {
        if to == crate::address::zero_key() {
            Some(DebtTokenError::ZeroAddress)
        } else if self.paused() {
            Some(DebtTokenError::TransferPaused)
        } else if self.blocked_set().contains(to) {
            Some(DebtTokenError::TransferBlocked)
        } else if !self.positions().contains_key(token_id) {
            Some(DebtTokenError::TokenNotFound)
        } else if self.positions()[token_id].is_liquidatable {
            Some(DebtTokenError::LiquidationInProgress)
        } else if !self.tokens_of(from).contains(token_id) {
            Some(DebtTokenError::Unauthorized)
        } else {
            None
        }
    }

    /// Why burning `token_id` by `user` is refused, or `None`.
    pub open spec fn burn_refusal(&self, user: Seq<char>, token_id: u64) -> Option<DebtTokenError> {
        if !self.positions().contains_key(token_id) {
            Some(DebtTokenError::TokenNotFound)
        } else if self.positions()[token_id].is_liquidatable {
            Some(DebtTokenError::LiquidationInProgress)
        } else if !self.tokens_of(user).contains(token_id) {
            Some(DebtTokenError::Unauthorized)
        } else {
            None
        }
    }

    /// Transfers `token_id` from `from` to `to` at time `now`.
    ///
    /// Refused (changing nothing) for the zero address, while paused, for a
    /// blocked recipient, for a missing token, for a position under
    /// liquidation, and when `from` does not own the token. Otherwise the
    /// token leaves `from`'s list, is appended to `to`'s list, and the
    /// position's `updated_at` becomes the stamp of `now`.
    pub fn transfer_debt_token(&mut self, from: &AccountId, to: &AccountId, token_id: u64, now: u64) -> (r:
        Result<(), DebtTokenError>)
        requires
            old(self).wf(),
        ensures
            final(self).wf(),
            id_step(*old(self), *final(self), None),
            match old(self).transfer_refusal(from@, to@, token_id) {
                Some(e) => r == Err::<(), _>(e) && *final(self) == *old(self),
                None => {
                    &&& r is Ok
                    &&& final(self).positions() == old(self).positions().insert(
                        token_id,
                        DebtPosition { updated_at: record_stamp(now), ..old(self).positions()[token_id] },
                    )
                    &&& final(self).owners() == moved_token(old(self).owners(), from@, to@, token_id)
                    &&& final(self).next_id() == old(self).next_id()
                    &&& final(self).supply() == old(self).supply()
                    &&& final(self).paused() == old(self).paused()
                    &&& final(self).blocked_set() == old(self).blocked_set()
                },
            },
    {
        if to.is_zero() {
            return Err(DebtTokenError::ZeroAddress);
        }
        if self.is_transfer_paused() {
            return Err(DebtTokenError::TransferPaused);
        }
        if self.is_address_blocked(to) {
            return Err(DebtTokenError::TransferBlocked);
        }
        let position = match self.get_debt_position(token_id) {
            Some(p) => p,
            None => return Err(DebtTokenError::TokenNotFound),
        };
        if position.is_liquidatable {
            return Err(DebtTokenError::LiquidationInProgress);
        }
        let owner_tokens = self.get_user_debt_tokens(from);
        if !list_contains(&owner_tokens, token_id) {
            return Err(DebtTokenError::Unauthorized);
        }
        let ghost old_owners = self.owners@;
        let ghost old_positions = self.positions@;
        let mut from_tokens = owner_tokens;
        let index = match position_of(&from_tokens, token_id) {
            Some(i) => i,
            None => return Err(DebtTokenError::TokenNotFound),
        };
        proof {
            assert(old_owners.contains_key(from@));
            lemma_index_in_unique(from_tokens@, index as int);
            lemma_move_keeps_ownership(old_positions.dom(), old_owners, from@, to@, token_id);
        }
        from_tokens.remove(index);
        self.set_owner_tokens(from, from_tokens);
        let mut to_tokens = self.tokens_for(to);
        to_tokens.push(token_id);
        self.set_owner_tokens(to, to_tokens);
        let mut updated_position = position;
        updated_position.updated_at = stamp_of(now);
        self.positions.insert(token_id, updated_position);
        proof {
            assert(self.owners@ == moved_token(old_owners, from@, to@, token_id));
            assert(self.positions@.dom() =~= old_positions.dom());
        }
        Ok(())
    }

    /// Burns `token_id` held by `user` (the debt was repaid or liquidated).
    ///
    /// Refused (changing nothing) for a missing token, for a position under
    /// liquidation, and when `user` does not own it. Otherwise the token
    /// leaves `user`'s list, its position is deleted, and the supply drops by
    /// one.
    pub fn burn_debt_token(&mut self, user: &AccountId, token_id: u64) -> (r: Result<(), DebtTokenError>)
        requires
            old(self).wf(),
        ensures
            final(self).wf(),
            id_step(*old(self), *final(self), None),
            match old(self).burn_refusal(user@, token_id) {
                Some(e) => r == Err::<(), _>(e) && *final(self) == *old(self),
                None => {
                    &&& r is Ok
                    &&& final(self).positions() == old(self).positions().remove(token_id)
                    &&& final(self).owners() == without_token(old(self).owners(), user@, token_id)
                    &&& final(self).supply() == old(self).supply() - 1
                    &&& final(self).next_id() == old(self).next_id()
                    &&& final(self).paused() == old(self).paused()
                    &&& final(self).blocked_set() == old(self).blocked_set()
                },
            },
    {
        let position = match self.get_debt_position(token_id) {
            Some(p) => p,
            None => return Err(DebtTokenError::TokenNotFound),
        };
        if position.is_liquidatable {
            return Err(DebtTokenError::LiquidationInProgress);
        }
        let owner_tokens = self.get_user_debt_tokens(user);
        if !list_contains(&owner_tokens, token_id) {
            return Err(DebtTokenError::Unauthorized);
        }
        let ghost old_owners = self.owners@;
        let ghost old_positions = self.positions@;
        let mut user_tokens = owner_tokens;
        let index = match position_of(&user_tokens, token_id) {
            Some(i) => i,
            None => return Err(DebtTokenError::TokenNotFound),
        };
        proof {
            assert(old_owners.contains_key(user@));
            lemma_index_in_unique(user_tokens@, index as int);
            lemma_burn_keeps_ownership(old_positions.dom(), old_owners, user@, token_id);
            assert(old_positions.dom().contains(token_id));
        }
        user_tokens.remove(index);
        self.set_owner_tokens(user, user_tokens);
        self.positions.remove(&token_id);
        proof {
            assert(self.positions@.dom() =~= old_positions.dom().remove(token_id));
        }
        self.update_total_supply(-1);
        Ok(())
    }

    /// Whether `admin` is the stored admin.
    pub open spec fn is_admin(stored_admin: Option<Seq<char>>, admin: Seq<char>) -> bool {
        stored_admin == Some(admin)
    }

    /// Pauses or resumes transfers (and mints). Only the stored admin may do
    /// so; anyone else, or any caller when no admin is stored, is refused.
    pub fn set_transfer_pause(&mut self, stored_admin: &Option<AccountId>, admin: &AccountId, paused: bool) -> (r:
        Result<(), DebtTokenError>)
        requires
            old(self).wf(),
        ensures
            final(self).wf(),
            id_step(*old(self), *final(self), None),
            !Self::is_admin(opt_view(*stored_admin), admin@) ==> r == Err::<(), _>(
                DebtTokenError::Unauthorized,
            ) && *final(self) == *old(self),
            Self::is_admin(opt_view(*stored_admin), admin@) ==> {
                &&& r is Ok
                &&& final(self).paused() == paused
                &&& final(self).positions() == old(self).positions()
                &&& final(self).owners() == old(self).owners()
                &&& final(self).next_id() == old(self).next_id()
                &&& final(self).supply() == old(self).supply()
                &&& final(self).blocked_set() == old(self).blocked_set()
            },
    {
        let stored = match stored_admin {
            Some(a) => a,
            None => return Err(DebtTokenError::Unauthorized),
        };
        if !admin.same(stored) {
            return Err(DebtTokenError::Unauthorized);
        }
        self.transfer_paused = paused;
        Ok(())
    }

    /// Blocks or unblocks `address` as a transfer recipient. Only the stored
    /// admin may do so.
    pub fn set_address_blocked(
        &mut self,
        stored_admin: &Option<AccountId>,
        admin: &AccountId,
        address: &AccountId,
        blocked: bool,
    ) -> (r: Result<(), DebtTokenError>)
        requires
            old(self).wf(),
        ensures
            final(self).wf(),
            id_step(*old(self), *final(self), None),
            !Self::is_admin(opt_view(*stored_admin), admin@) ==> r == Err::<(), _>(
                DebtTokenError::Unauthorized,
            ) && *final(self) == *old(self),
            Self::is_admin(opt_view(*stored_admin), admin@) ==> {
                &&& r is Ok
                &&& final(self).blocked_set() == if blocked {
                    old(self).blocked_set().insert(address@)
                } else {
                    old(self).blocked_set().remove(address@)
                }
                &&& final(self).positions() == old(self).positions()
                &&& final(self).owners() == old(self).owners()
                &&& final(self).next_id() == old(self).next_id()
                &&& final(self).supply() == old(self).supply()
                &&& final(self).paused() == old(self).paused()
            },
    {
        let stored = match stored_admin {
            Some(a) => a,
            None => return Err(DebtTokenError::Unauthorized),
        };
        if !admin.same(stored) {
            return Err(DebtTokenError::Unauthorized);
        }
        let ghost old_blocked = self.blocked@;
        let ghost old_set = self.blocked_set();
        let found = self.find_blocked(address);
        if blocked {
            if found.is_none() {
                self.blocked.push(address.duplicate());
                proof {
                    let v = self.blocked@;
                    assert(forall|j: int| 0 <= j < old_blocked.len() ==> v[j] == old_blocked[j]);
                    assert(self.blocked_set() =~= old_set.insert(address@)) by {
                        assert(v[old_blocked.len() as int]@ == address@);
                    }
                }
            } else {
                proof {
                    let i = found->0;
                    assert(old_set.contains(address@)) by {
                        assert(old_blocked[i as int]@ == address@);
                    }
                    assert(self.blocked_set() =~= old_set.insert(address@));
                }
            }
        } else {
            match found {
                Some(i) => {
                    self.blocked.remove(i);
                    proof {
                        let v = self.blocked@;
                        assert forall|k: Seq<char>| self.blocked_set().contains(k) <==> old_set.remove(address@).contains(k) by {
                            if self.blocked_set().contains(k) {
                                let j = choose|j: int| 0 <= j < v.len() && v[j]@ == k;
                                let j2 = if j < i { j } else { j + 1 };
                                assert(old_blocked[j2]@ == k);
                                assert(j2 != i);
                            }
                            if old_set.remove(address@).contains(k) {
                                let j = choose|j: int| 0 <= j < old_blocked.len() && old_blocked[j]@ == k;
                                assert(j != i);
                                let j2 = if j < i { j } else { j - 1 };
                                assert(v[j2]@ == k);
                            }
                        }
                        assert(self.blocked_set() =~= old_set.remove(address@));
                        assert(distinct_addresses(v)) by {
                            assert forall|a: int, b: int| 0 <= a < b < v.len() implies (#[trigger] v[a])@ != (#[trigger] v[b])@ by {
                                let a2 = if a < i { a } else { a + 1 };
                                let b2 = if b < i { b } else { b + 1 };
                                assert(v[a] == old_blocked[a2] && v[b] == old_blocked[b2]);
                            }
                        }
                    }
                },
                None => {
                    proof {
                        assert(self.blocked_set() =~= old_set.remove(address@));
                    }
                },
            }
        }
        Ok(())
    }
}

/// In a well-formed registry every existing token is held by exactly one
/// owner, exactly once; owners hold only existing tokens; and the supply is
/// the number of existing tokens, which stays below the next id.
pub proof fn lemma_registry_ownership(r: &DebtTokenRegistry)
    requires
        r.wf(),
    ensures
        forall|id: u64| #[trigger]
            r.positions().contains_key(id) ==> exists|o: Seq<char>| #[trigger]
                r.tokens_of(o).contains(id),
        forall|o1: Seq<char>, o2: Seq<char>, id: u64|
            #[trigger] r.tokens_of(o1).contains(id) && #[trigger] r.tokens_of(o2).contains(id) ==> o1
                == o2,
        forall|o: Seq<char>| (#[trigger] r.tokens_of(o)).no_duplicates(),
        forall|o: Seq<char>, id: u64| #[trigger]
            r.tokens_of(o).contains(id) ==> r.positions().contains_key(id),
        r.supply() == r.positions().len(),
        r.supply() < r.next_id(),
{
    assert forall|id: u64| #[trigger] r.positions().contains_key(id) implies exists|o: Seq<char>| #[trigger]
        r.tokens_of(o).contains(id) by {
        assert(r.positions@.dom().contains(id));
        let o = choose|o: Seq<char>| r.owners@.contains_key(o) && #[trigger] r.owners@[o].contains(id);
        assert(r.tokens_of(o).contains(id));
    }
    assert forall|o: Seq<char>, id: u64| #[trigger] r.tokens_of(o).contains(id) implies r.positions().contains_key(
        id,
    ) by {
        let i = choose|i: int| 0 <= i < r.tokens_of(o).len() && r.tokens_of(o)[i] == id;
        assert(r.positions@.dom().contains(r.owners@[o][i]));
    }
}

/// A transfer moves exactly the transferred token: afterwards the recipient
/// is its only holder, and every other token keeps its holders.
pub proof fn lemma_transfer_moves_only_that_token(
    r: &DebtTokenRegistry,
    from: Seq<char>,
    to: Seq<char>,
    token_id: u64,
)
    requires
        r.wf(),
        r.transfer_refusal(from, to, token_id) is None,
    ensures
        forall|o: Seq<char>, x: u64|
            #[trigger] tokens_in(moved_token(r.owners(), from, to, token_id), o).contains(x) <==> if x
                == token_id {
                o == to
            } else {
                r.tokens_of(o).contains(x)
            },
{
    lemma_move_keeps_ownership(r.positions@.dom(), r.owners@, from, to, token_id);
}

/// Transferring a token and transferring it straight back restores who
/// holds what.
pub proof fn lemma_transfer_back_restores_holdings(
    r: &DebtTokenRegistry,
    a: Seq<char>,
    b: Seq<char>,
    token_id: u64,
)
    requires
        r.wf(),
        r.tokens_of(a).contains(token_id),
    ensures
        forall|o: Seq<char>, x: u64|
            #[trigger] tokens_in(
                moved_token(moved_token(r.owners(), a, b, token_id), b, a, token_id),
                o,
            ).contains(x) <==> r.tokens_of(o).contains(x),
{
    let ids = r.positions@.dom();
    lemma_move_keeps_ownership(ids, r.owners@, a, b, token_id);
    let m1 = moved_token(r.owners(), a, b, token_id);
    assert(tokens_in(m1, b).contains(token_id));
    lemma_move_keeps_ownership(ids, m1, b, a, token_id);
    assert forall|o: Seq<char>, x: u64|
        #[trigger] tokens_in(moved_token(m1, b, a, token_id), o).contains(x) <==> r.tokens_of(o).contains(x) by {
        if x == token_id {
            if r.tokens_of(o).contains(x) {
                let i = choose|i: int| 0 <= i < r.owners@[o].len() && r.owners@[o][i] == x;
                assert(r.owners@[o].contains(x));
                let j = choose|j: int| 0 <= j < r.owners@[a].len() && r.owners@[a][j] == x;
                assert(r.owners@[a].contains(x));
            }
        } else {
            assert(tokens_in(m1, o).contains(x) <==> r.tokens_of(o).contains(x));
        }
    }
}

/// Burning the token just minted restores the positions and every owner's
/// token list.
pub proof fn lemma_mint_then_burn_restores(
    r: &DebtTokenRegistry,
    user: Seq<char>,
    position: DebtPosition,
)
    requires
        r.wf(),
    ensures
        r.positions().insert(r.next_id(), position).remove(r.next_id()) == r.positions(),
        forall|o: Seq<char>|
            #[trigger] tokens_in(
                without_token(
                    r.owners().insert(user, r.tokens_of(user).push(r.next_id())),
                    user,
                    r.next_id(),
                ),
                o,
            ) == r.tokens_of(o),
{
    let id = r.next_id();
    assert(!r.positions@.contains_key(id));
    assert(r.positions().insert(id, position).remove(id) =~= r.positions());
    let s = r.tokens_of(user).push(id);
    assert(!r.tokens_of(user).contains(id)) by {
        if r.tokens_of(user).contains(id) {
            let i = choose|i: int| 0 <= i < r.owners@[user].len() && r.owners@[user][i] == id;
            assert(r.positions@.dom().contains(r.owners@[user][i]));
        }
    }
    let last = s.len() - 1;
    assert(s[last] == id);
    assert(s.no_duplicates()) by {
        assert forall|i: int, j: int| 0 <= i < s.len() && 0 <= j < s.len() && i != j implies s[i] != s[j] by {
            if i == last {
                assert(s[j] == r.tokens_of(user)[j]);
            } else if j == last {
                assert(s[i] == r.tokens_of(user)[i]);
            } else {
                if r.owners@.contains_key(user) {
                    assert(r.owners@[user].no_duplicates());
                }
            }
        }
    }
    lemma_index_in_unique(s, last);
    assert(s.remove(last) =~= r.tokens_of(user));
}

/// Token ids are never reused: the next id is held by no position and by
/// no owner, every existing token's id is below it, and every operation
/// keeps or raises it (see the contracts of mint, transfer and burn), so an
/// id that was issued, and possibly burned, is never issued again.
pub proof fn lemma_token_ids_are_fresh(r: &DebtTokenRegistry, id: u64)
    requires
        r.wf(),
    ensures
        1 <= r.next_id(),
        !r.positions().contains_key(r.next_id()),
        forall|o: Seq<char>| !(#[trigger] r.tokens_of(o)).contains(r.next_id()),
        r.positions().contains_key(id) ==> id < r.next_id(),
{
    lemma_registry_ownership(r);
    assert forall|o: Seq<char>| !(#[trigger] r.tokens_of(o)).contains(r.next_id()) by {
        if r.tokens_of(o).contains(r.next_id()) {
            assert(r.positions().contains_key(r.next_id()));
        }
    }
}

/// How one operation moves the token-id counter: an operation that issues
/// no token keeps the next id; one that issues `id` issues the next id,
/// which no position held, and raises the next id by one.
pub open spec fn id_step(a: DebtTokenRegistry, b: DebtTokenRegistry, issued: Option<u64>) -> bool {
    match issued {
        None => b.next_id() == a.next_id(),
        Some(id) => {
            &&& id == a.next_id()
            &&& !a.positions().contains_key(id)
            &&& b.next_id() == a.next_id() + 1
        },
    }
}

/// The ids issued along a run, in order, leaving out the operations that
/// issued none.
pub open spec fn issued_ids(issued: Seq<Option<u64>>) -> Seq<u64>
    decreases issued.len(),
{
    if issued.len() == 0 {
        Seq::empty()
    } else {
        let prev = issued_ids(issued.drop_last());
        match issued.last() {
            Some(id) => prev.push(id),
            None => prev,
        }
    }
}

/// Over any run of operations (mint, transfer, burn, the admin switches, and
/// refusals of any of them), with `rs[i]` the registry before operation `i`
/// and `issued[i]` the id it issued, if any: the issued ids are consecutive,
/// starting at the first registry's next id (1 for a new registry), so the
/// k-th successful mint issues id k; they strictly increase, so no id is
/// ever issued twice, even after it was burned; and each was held by no
/// position just before its mint. The contract of every operation states
/// its `id_step`.
pub proof fn lemma_ids_issued_in_order(rs: Seq<DebtTokenRegistry>, issued: Seq<Option<u64>>)
    requires
        rs.len() == issued.len() + 1,
        forall|i: int| 0 <= i < issued.len() ==> id_step(rs[i], rs[i + 1], #[trigger] issued[i]),
    ensures
        rs.last().next_id() == rs[0].next_id() + issued_ids(issued).len(),
        forall|k: int|
            0 <= k < issued_ids(issued).len() ==> #[trigger] issued_ids(issued)[k] == rs[0].next_id() + k,
        forall|j: int, k: int|
            0 <= j < k < issued_ids(issued).len() ==> #[trigger] issued_ids(issued)[j]
                < #[trigger] issued_ids(issued)[k],
        forall|i: int|
            0 <= i < issued.len() && #[trigger] issued[i] is Some ==> !rs[i].positions().contains_key(
                issued[i]->0,
            ),
    decreases issued.len(),
{
    if issued.len() > 0 {
        let n = issued.len() - 1;
        let rs0 = rs.drop_last();
        let is0 = issued.drop_last();
        assert forall|i: int| 0 <= i < is0.len() implies id_step(rs0[i], rs0[i + 1], #[trigger] is0[i]) by {
            assert(is0[i] == issued[i]);
            assert(rs0[i] == rs[i] && rs0[i + 1] == rs[i + 1]);
        }
        lemma_ids_issued_in_order(rs0, is0);
        assert(id_step(rs[n], rs[n + 1], issued[n]));
        assert(rs0.last() == rs[n]);
        assert(rs0[0] == rs[0]);
        assert forall|i: int|
            0 <= i < issued.len() && #[trigger] issued[i] is Some implies !rs[i].positions().contains_key(
                issued[i]->0,
            ) by {
            if i < n {
                assert(is0[i] == issued[i]);
                assert(rs0[i] == rs[i] && rs0[i + 1] == rs[i + 1]);
                assert(id_step(rs[i], rs[i + 1], issued[i]));
            } else {
                assert(id_step(rs[i], rs[i + 1], issued[i]));
            }
        }
    }
}

} // verus!
