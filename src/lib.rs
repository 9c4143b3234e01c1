//! A ledger of client accounts that applies deposits, withdrawals and the
//! dispute lifecycle (dispute, resolve, chargeback) to per-client balances.

pub mod money;
pub mod domain;
pub mod engine;
pub mod laws;
