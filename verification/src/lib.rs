//! A fungible-token ledger: an account-balance store with delegated-spending
//! (allowance) semantics. The ledger owns all token state; the hosting
//! environment supplies the caller's identity to each operation and forwards
//! the notifications that the ledger records.

mod table;
mod ledger;
mod laws;

pub use ledger::AccountId;
pub use ledger::Approval;
pub use ledger::Balance;
pub use ledger::Erc20;
pub use ledger::Error;
pub use ledger::Event;
pub use ledger::Transfer;
