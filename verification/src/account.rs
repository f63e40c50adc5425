use vstd::prelude::*;

verus! {

/// Opaque identifier for a ledger participant.
///
/// No structure is assumed beyond equality; the host decides what the
/// identifier means (a key hash, an index, ...).
#[derive(PartialEq, Eq, Structural, Clone, Copy, Debug, Hash)]
pub struct AccountId {
    pub id: u128,
}

impl AccountId {
    pub fn new(id: u128) -> (r: AccountId)
        ensures
            r == (AccountId { id }),
    {
        AccountId { id }
    }

    /// The designated null account: the destination recorded in the
    /// `Transfer` event that a burn emits.
    pub fn null() -> (r: AccountId)
        ensures
            r == null_account(),
    {
        AccountId { id: 0 }
    }
}

/// The null account as a specification-level value.
pub open spec fn null_account() -> AccountId {
    AccountId { id: 0 }
}

} // verus!
