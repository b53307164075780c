//! Account identities as the protocol's logic sees them: a Stellar address in
//! its textual (strkey) form. The logic only ever compares two addresses and
//! tests for the all-zero account.
use vstd::prelude::*;

verus! {

/// The strkey of the all-zero account key, which the protocol treats as the
/// "zero address" that no token may be sent to.
pub open spec fn zero_key() -> Seq<char> {
    "GAAAAAAAAAAAAAAAAAAAAAAAAAAAAAAAAAAAAAAAAAAAAAAAAAAAAWHF"@
}

/// How an address is shown in diagnostics: `AccountId(<strkey>)` for an
/// account key (strkey starting with `G`), `Contract(<strkey>)` for a
/// contract (starting with `C`), and the bare strkey otherwise.
pub open spec fn debug_text(key: Seq<char>) -> Seq<char> {
    if key.len() > 0 && key[0] == 'G' {
        "AccountId("@ + key + ")"@
    } else if key.len() > 0 && key[0] == 'C' {
        "Contract("@ + key + ")"@
    } else {
        key
    }
}

/// An account or contract address, held as its strkey text.
#[derive(Debug)]
pub struct AccountId {
    pub key: String,
}

impl View for AccountId {
    type V = Seq<char>;

    open spec fn view(&self) -> Seq<char> {
        self.key@
    }
}

impl AccountId {
    /// An address with the given strkey text.
    pub fn new(key: &str) -> (a: AccountId)
        ensures
            a@ == key@,
    {
        AccountId { key: String::from_str(key) }
    }

    /// The all-zero address.
    pub fn zero() -> (a: AccountId)
        ensures
            a@ == zero_key(),
    {
        AccountId::new("GAAAAAAAAAAAAAAAAAAAAAAAAAAAAAAAAAAAAAAAAAAAAAAAAAAAAWHF")
    }

    /// Whether two addresses are the same address.
    pub fn same(&self, other: &AccountId) -> (r: bool)
        ensures
            r == (self@ == other@),
    {
        self.key == other.key
    }

    /// Whether this is the all-zero address.
    pub fn is_zero(&self) -> (r: bool)
        ensures
            r == (self@ == zero_key()),
    {
        let z = AccountId::zero();
        self.same(&z)
    }

    /// A copy of this address.
    pub fn duplicate(&self) -> (a: AccountId)
        ensures
            a == *self,
            a@ == self@,
    {
        AccountId { key: self.key.clone() }
    }

    /// This address as shown in diagnostics (see `debug_text`).
    pub fn debug_text(&self) -> (s: String)
        ensures
            s@ == debug_text(self@),
    {
        proof {
            broadcast use vstd::string::axiom_spec_iter, vstd::string::next_postcondition;
        }
        let mut chars = self.key.as_str().chars();
        let first = chars.next();
        match first {
            Some('G') => {
                let mut s = String::from_str("AccountId(");
                s.append(self.key.as_str());
                s.append(")");
                s
            },
            Some('C') => {
                let mut s = String::from_str("Contract(");
                s.append(self.key.as_str());
                s.append(")");
                s
            },
            _ => self.key.clone(),
        }
    }

    /// The strkey text of this address.
    pub fn as_str(&self) -> (s: &str)
        ensures
            s@ == self@,
    {
        self.key.as_str()
    }
}

/// A copy of an optional address.
pub fn duplicate_opt(a: &Option<AccountId>) -> (r: Option<AccountId>)
    ensures
        r == *a,
{
    match a {
        Some(x) => Some(x.duplicate()),
        None => None,
    }
}

/// The view of an optional address.
pub open spec fn opt_view(a: Option<AccountId>) -> Option<Seq<char>> {
    match a {
        Some(x) => Some(x@),
        None => None,
    }
}

/// Whether two optional addresses are equal (both absent, or the same address).
pub fn same_opt(a: &Option<AccountId>, b: &Option<AccountId>) -> (r: bool)
    ensures
        r == (opt_view(*a) == opt_view(*b)),
{
    match (a, b) {
        (Some(x), Some(y)) => x.same(y),
        (None, None) => true,
        _ => false,
    }
}

} // verus!
