//! Precompiled-contract dispatch for a blockchain execution engine.
//!
//! Fixed 4-byte selectors route opaque byte payloads to one of two operation
//! families: the Anemoi hash family (Jive compression, variable-length hash,
//! salt-table lookup) and the anonymous-transaction family (deposit, transfer
//! and ownership verification). This crate owns the selector dispatch, the
//! head/tail ABI tuple codec, the pre-execution gas model, the structural
//! validation of every argument set, and the fixed-width output encoding; the
//! field arithmetic and proof verification behind the operations are the
//! host's cryptographic delegates and stay outside this core.

pub mod abi;
pub mod anemoi;
pub mod anon;
pub mod errors;
