//! Verified core of a TUN-over-QUIC VPN: the handshake wire format, the
//! server's address pool, subnet parsing, packet filtering, retry policy and
//! the client's routing plan.
pub mod client;
pub mod common;
pub mod server;
