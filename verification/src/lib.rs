//! Verified core of the Callora payment contracts: a prepaid vault, a
//! settlement ledger and a revenue pool, modelled as state machines over
//! plain values, plus a storage-snapshot diff helper.

pub mod errors;
pub mod bytes;
pub mod lexorder;
pub mod snapshot;
pub mod text;
pub mod vault;
pub mod vault_funds;
pub mod vault_offerings;
pub mod settlement;
pub mod settlement_withdraw;
pub mod settlement_views;
pub mod settlement_migrate;
pub mod settlement_totals;
pub mod revenue_pool;
pub mod laws;
