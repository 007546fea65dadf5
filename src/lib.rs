//! A fungible-token ledger: balances, allowances, an append-only history
//! and snapshots of the whole state, with every operation proved to keep
//! the supply conserved and to change nothing when it fails.

pub mod account;
pub mod amounts;
pub mod allowances;
pub mod history;
pub mod metadata;
pub mod ledger;
pub mod holders;
pub mod snapshot;
pub mod notify;
