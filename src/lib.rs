//! Resumable, batched distribution of a token pool to a list of holders.
//!
//! The library holds the recipient list, its per-entry status lifecycle, the
//! proportional allocation, and the decisions of each pipeline stage
//! (qualification check, batched transfer, confirmation). Network calls and
//! file access are made by the caller, which hands their outcomes back.
pub mod errors;
pub mod keys;
pub mod text;
pub mod status;
pub mod wallet_list;
pub mod snapshot;
pub mod allocation;
pub mod token;
pub mod batching;
pub mod check;
pub mod send;
pub mod confirm;
pub mod naming;
pub mod records;
pub mod stage;
pub mod transaction;
