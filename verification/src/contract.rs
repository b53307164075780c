//! The contract's entry type. Its greeting is the only entry point whose
//! behaviour lives here; the other entry points forward to modules that
//! are not part of this library.
use vstd::prelude::*;

verus! {

/// The StellarLend core contract.
pub struct HelloContract;

impl HelloContract {
    /// The contract's greeting.
    pub fn hello() -> (s: String)
        ensures
            s@ == "Hello"@,
    {
        String::from_str("Hello")
    }
}

} // verus!
