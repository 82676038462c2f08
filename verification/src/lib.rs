//! Validation engine for an on-ledger bridge cell.
//!
//! The bridge cell carries an append-only ledger of cross-chain deposit
//! records and authorizes minting of a wrapped asset. Every state
//! transition of the cell is judged by pure, deterministic inspection of
//! a transaction view: the codec decodes the ledger and proof bytes, and
//! the verifier enforces the structural and consistency invariants.

pub mod codec;
pub mod error;
pub mod model;
pub mod transition;
