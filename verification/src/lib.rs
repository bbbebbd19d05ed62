//! A verified core for a UDP relay tunnel.
//!
//! A client behind a NAT asks a publicly reachable server to open a UDP
//! port; datagrams arriving at that port are framed and carried over a
//! single control channel to the client, which relays them to a local
//! endpoint and carries replies back.  This crate holds the pure core of
//! that tunnel: the frame codec, the handshake, the server's session
//! table and the client's peer table, each with a proved contract.
//! Socket and thread plumbing lives outside, in the unverified binary.

pub mod cli;
pub mod client;
pub mod codec;
pub mod msg;
pub mod server;
