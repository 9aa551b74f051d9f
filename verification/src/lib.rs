//! Peer-to-peer file handoff: tickets exchanged for short query codes over an
//! authenticated peer connection, plus the persisted host and key registries
//! that make repeated use practical.
//!
//! The exchange protocol, the registries, and the whole-document persistence
//! codec are verified; connection handling, the blob store, and the terminal
//! front end live outside this crate and hand plain values in and out.

pub mod codec;
pub mod error;
pub mod fmt;
pub mod hosts;
pub mod persist;
pub mod protocol;
pub mod registry;
pub mod ticket;
