pub mod digest;
pub mod hello;
pub mod ipv4;
pub mod net;
pub mod text;
