//! The storage-node ledger.

pub mod database;
