//! A content-addressed record store with a mint pipeline.
//!
//! Payloads are deduplicated by a 256-bit content digest; content that has
//! been consumed by a completed mint request can never be stored again and
//! the record holding it can never be deleted.  Mint requests move through a
//! small state machine (`Pending -> InProgress -> Completed | Failed`) driven
//! by a dispatcher that claims at most one pending request per tick.
//!
//! [`storage`] holds the state and the executable operations, each
//! specified by a transition function of [`model`]; [`laws`] proves the
//! guarantees that span several operations.  [`validation`], [`identity`]
//! and [`hashing`] carry the submission rules, the caller identities and
//! the content digests.  [`marketplace`], [`search`], [`wallet`] and
//! [`decimal`] hold the computations of the surrounding subsystems, whose
//! own stores live outside this library.

pub mod decimal;
pub mod hashing;
pub mod identity;
pub mod laws;
pub mod marketplace;
pub mod model;
pub mod search;
pub mod storage;
pub mod strutil;
pub mod types;
pub mod validation;
pub mod wallet;

pub use hashing::DataHash;
pub use identity::Principal;
