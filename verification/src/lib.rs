//! Per-identity quota ledgers: how much a client has stored against its
//! allowance, and how much a storage node holds against the space it offers.

pub mod identity;
pub mod ledger;
pub mod maid_manager;
pub mod pmid_manager;
