pub mod config;
pub mod quic;
pub mod route;
pub mod tunnel;
