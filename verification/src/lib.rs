//! Core of a multiplayer racing-simulator game server: the binary wire
//! codec for the fixed packet catalogue, length-prefixed stream framing,
//! and the authoritative per-client, per-session and world state together
//! with the tick-driven game logic that maps incoming packets to state
//! changes and outgoing broadcasts.
//!
//! Every integer on the wire is little-endian.  Floating-point fields are
//! carried as their raw 32-bit patterns, so encoding and decoding are exact
//! byte-level inverses.
pub mod cars;
pub mod clients;
pub mod codec;
pub mod config;
pub mod game;
pub mod lobby;
pub mod options;
pub mod packets;
pub mod session;
pub mod tickloop;
pub mod strings;
pub mod track;
pub mod vecs;
pub mod weather;
pub mod wire;

pub use wire::Error;
pub use wire::Readable;
pub use wire::Writeable;
