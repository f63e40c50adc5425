//! A fungible-token ledger: an account-keyed balance store with a
//! delegated-spending (allowance) layer.
//!
//! The ledger is an in-memory state machine driven by a host that supplies an
//! authenticated caller identity with every mutating call. Every operation
//! either commits as a whole or rejects with no observable change, and every
//! well-formed ledger satisfies the conservation invariant: the total supply
//! equals the sum of all stored balances.

pub mod account;
pub mod ledger;
pub mod store;
pub mod sums;

pub use account::AccountId;
pub use ledger::Erc20;
pub use ledger::Error;
pub use ledger::Transfer;
