//! Per-group append-only hash chains of signed messages, kept in a
//! string-keyed store.
//!
//! Each message commits to its predecessor by a SHA-256 hash and is signed
//! by its author under a Schnorr signature over the NIST P-256 curve.  The
//! library keeps an account registry (keypairs and a current-account
//! cursor), signs new messages onto a group's chain, admits foreign signed
//! messages after validation, and re-checks a whole chain end to end.
//! Persistence is a byte-keyed mapping the host owns; every value crosses
//! it in a compact JSON form with a verified codec.

pub mod account;
pub mod account_store;
pub mod bytes;
pub mod codec;
pub mod crypto;
pub mod group;
pub mod group_store;
pub mod hash;
pub mod json;
pub mod message;
pub mod message_store;
pub mod signer;
pub mod storage;
pub mod writer;
