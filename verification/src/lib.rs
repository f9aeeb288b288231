//! A verified Merkle-tree airdrop engine.
//!
//! An operator commits to a list of `(account, amount)` entitlement records
//! by publishing a single SHA-256 Merkle root. Each recipient later proves
//! their own entitlement with a short sibling path, which the contract
//! checks against the stored root before releasing funds exactly once per
//! account.
//!
//! - [`encoding`] canonically serializes a record into leaf bytes;
//! - [`hashing`] is the trusted SHA-256 primitive;
//! - [`merkle`] builds trees, produces inclusion proofs and verifies them;
//! - [`amount`] parses decimal amount strings;
//! - [`contract`] is the claim state machine with owner-gated root rotation.
#![verifier::loop_isolation(false)]
pub mod amount;
pub mod bytes;
pub mod contract;
pub mod encoding;
pub mod hashing;
pub mod merkle;
