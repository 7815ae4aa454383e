pub mod backoff;
pub mod config;
pub mod handshake;
pub mod ip;
pub mod quic;
pub mod route;
pub mod subnet;
pub mod users;
