//! The client ledger.

pub mod database;
