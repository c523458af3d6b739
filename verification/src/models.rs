//! Rows written to the Postgres database.
use vstd::prelude::*;

verus! {

/// A new ownership of a domain: the domain and the UUID of its owner.
pub struct AddDomainOwnership {
    pub domain: String,
    /// The owner's UUID, as its 128-bit value.
    pub owned_by: u128,
}

} // verus!
