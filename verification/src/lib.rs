//! Peer-to-peer file transfer over IPv6 between hosts behind stateful
//! firewalls.
//!
//! Three parts work together. The registry (`db`, `server`, `identifier`,
//! and `client` for its callers) maps user identifiers to addresses and
//! guards each record with a nonce. The hole punch (`udp`) opens the
//! firewalls from both sides at once. The transfer (`frame`, `sender`,
//! `receiver`, `quic`, `digest`) frames a file with its metadata in front and
//! its SHA-256 behind, and checks both on arrival.
//!
//! The library computes and decides; sockets, files and clocks belong to
//! its caller.

pub mod address;
pub mod cert;
pub mod client;
pub mod config;
pub mod db;
pub mod digest;
pub mod error;
pub mod frame;
pub mod identifier;
pub mod ipv6_round_trip;
pub mod ipv6_text;
pub mod net;
pub mod peer;
pub mod quic;
pub mod receiver;
pub mod sender;
pub mod server;
pub mod text;
pub mod udp;
pub mod wire;
