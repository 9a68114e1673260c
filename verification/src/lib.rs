//! Core of a personal decentralized encrypted-mail node.
//!
//! A node owns a dual-use cryptographic identity (Ed25519 for signing,
//! X25519 for key agreement, both derived from one 32-byte seed), exchanges
//! authenticated end-to-end encrypted envelopes with peers, and falls back to
//! DHT store-and-forward or an ordinary mail relay when a recipient is
//! unreachable.  This crate holds the verified logic: identity derivation,
//! envelope construction and opening, the wire codec, the message store, the
//! delivery router, and the inbound envelope handler.  Process plumbing
//! (sockets, files, the overlay runtime) lives outside the crate and talks to
//! it through plain values.

pub mod errors;
pub mod strutil;
pub mod primitives;
pub mod encoding;
pub mod models;
pub mod keys;
pub mod envelope;
pub mod json;
pub mod store;
pub mod dht;
pub mod relay;
pub mod node;
pub mod router;
