//! Trusted-state persistence for a confidential contract runtime.
//!
//! Contract state lives encrypted on an untrusted host; this crate holds the
//! data model for encrypted snapshots and indexed deltas, the storage-proxy
//! protocol that moves them across the trust boundary with pre-sized buffers
//! and a dual status/code signal per call, and the authenticated-encryption
//! interface that produces and consumes the blobs.

pub mod boundary;
pub mod cryptography;
pub mod bytes;
pub mod data;
pub mod hashing;
pub mod memory;
pub mod proxy;
