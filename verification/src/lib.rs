//! Section membership core for a prefix-addressed peer-to-peer overlay.
//!
//! A section of elder nodes proposes, votes on, and finalises node joins and
//! leaves while tolerating asynchronous delivery and stale voters.  This crate
//! holds the membership state machine, the message handler that drives it, the
//! algorithm-tagged key and signature layer it depends on, and the quorum
//! merge primitive used when a client asks a group for its key set.

pub mod authd;
pub mod bytes_util;
pub mod crypto;
pub mod error;
pub mod files;
pub mod group_key;
pub mod hex;
pub mod ipc;
pub mod keys;
pub mod membership;
pub mod node;
pub mod xor_name;
pub mod zbase32;
