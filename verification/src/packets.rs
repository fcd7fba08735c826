//! The typed packet catalogue.
//!
//! A payload on the wire is one packet-id byte followed by the packet
//! body; the client-to-server and server-to-client catalogues are
//! dispatched by that byte.  Every packet type proves that decoding is the
//! exact inverse of encoding.
pub mod client;
pub mod common;
pub mod server;
