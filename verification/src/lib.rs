//! A multi-class token ledger: fungible "copies" of named token classes held
//! by accounts, with delegated spending (approve / revoke / transfer-from),
//! a marketplace settlement that moves one copy against payment, and a
//! storage-deposit meter.  Every operation either fully commits or leaves the
//! ledger untouched, and a conservation invariant ties each class's total
//! supply to the sum of all balances.

pub mod approvals;
pub mod balances;
pub mod contract;
pub mod errors;
pub mod events;
pub mod laws;
pub mod meta;
pub mod meter;
pub mod registry;

pub use errors::Error;
