//! LedgerKit: money-safe double-entry ledger engine for bank CSV exports.
//!
//! Every transaction balances per commodity, balances are derived from
//! postings only, and every change is recorded in a hash-chained event log.
pub mod text;
pub mod money;
pub mod error;
pub mod account;
pub mod hash;
pub mod ids;
pub mod date;
pub mod posting;
pub mod transaction;
pub mod verify;
pub mod snapshot;
pub mod reconcile;
pub mod raw;
pub mod adapter;
pub mod adapters;
pub mod dates;
pub mod pattern;
pub mod normalize;
pub mod convert;
pub mod dedupe;
pub mod rules;
pub mod export;
pub mod event;
pub mod store;
pub mod cli;
pub mod eval;
