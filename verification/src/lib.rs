//! Mesh file distribution: content-addressed chunk storage, manifest
//! publication, peer availability tracking and per-file download sessions
//! with integrity verification and in-order assembly.
//!
//! The engine in [`engine`] ties the pieces together: [`store`] holds
//! immutable chunks keyed by digest, [`manifest`] registers the chunk
//! layout of each shared file, [`peers`] tracks which peers hold which
//! file, and [`session`] drives one state machine per in-flight download.
//! Content addressing itself lives in [`digest`] and the chunk arithmetic
//! in [`chunking`].  Network transport, the clock and file I/O stay
//! outside: callers hand in bytes and events and take bytes back.

pub mod chat;
pub mod chunking;
pub mod device;
pub mod digest;
pub mod engine;
pub mod error;
pub mod manifest;
pub mod peers;
pub mod session;
pub mod store;
