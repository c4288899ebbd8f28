//! A minimal append-only ledger of blocks sealed by proof-of-work.
//!
//! Transactions are queued into a pending pool, then sealed into blocks.
//! Each block carries a canonical byte encoding; its SHA-256 digest links it
//! to its successor, and a numeric proof is searched for until the digest
//! satisfies a leading-zero difficulty predicate.

pub mod clock;
pub mod codec;
pub mod hashing;
pub mod ledger;
