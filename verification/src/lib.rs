//! Resolution engine for a local, file-backed mirror of remote ledger state.
//!
//! The crate keeps an idempotent store of account and program records,
//! decides what has to be fetched when an identifier is added, replays
//! field-level overrides on stored records and merges chains of named
//! configurations into one flattened context. All input and output is left
//! to the caller: every function here maps plain values to plain values.

pub mod error;
pub mod item;
pub mod pubkey;
pub mod account;
pub mod overrides;
pub mod context;
pub mod replay;
pub mod compose;
pub mod ledger;
