//! Core of a stateless "smart clause" request handler: a clause is
//! constructed once, then invoked (which atomically bumps a shared
//! counter) or rendered (which prepares an outbound document request).
//!
//! The crate verifies the clause execution protocol itself: the typed
//! request/response envelopes and their wire codec, the record/counter
//! store semantics, and the three operations with their error paths.
//! The surrounding host (function runtime, backing store client, HTTP)
//! stays outside and talks to this crate in plain values.

pub mod codec;
pub mod laws;
pub mod num;
pub mod ops;
pub mod text;
pub mod store;
pub mod types;
