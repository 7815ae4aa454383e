use crate::server::users::UserTable;
use vstd::prelude::*;

verus! {

/// VPN configuration.
pub struct VpnConfig {
    /// TUN device settings.
    pub tun: TunConfig,
    /// QUIC protocol settings.
    pub quic: QuicConfig,
    /// Each user with their secret.
    pub users: UserTable,
}

/// TUN virtual interface configuration.
pub struct TunConfig {
    /// Device name; when absent the OS assigns one.
    pub name: Option<String>,
    /// Device subnet in CIDR notation; client addresses are allocated from it.
    pub subnet: String,
    /// Maximum transmission unit: the largest packet in bytes.
    pub mtu: u16,
    /// Whether to set up NAT for the subnet.
    pub setup_nat: bool,
}

/// QUIC protocol configuration, used to talk to clients.
pub struct QuicConfig {
    /// Server name, used in the certificate.
    pub server_name: String,
    /// Address the QUIC endpoint listens on.
    pub endpoint_address: core::net::SocketAddr,
    /// Receive buffer size for datagrams, in kilobytes.
    pub receive_buffer_size_kb: usize,
    /// Send buffer size for datagrams, in kilobytes.
    pub send_buffer_size_kb: usize,
    /// Path to the server certificate.
    pub server_cert: String,
    /// Path to the server key.
    pub server_key: String,
}

impl VpnConfig {
    /// Whether `username` is a user whose secret is `password`.
    pub fn auth(&self, username: &str, password: String) -> (ok: bool)
        ensures
            ok == (self.users@.contains_key(username@) && self.users@[username@] == password@),
    {
        let name = username.to_owned();
        match self.users.get(&name) {
            Some(secret) => *secret == password,
            None => false,
        }
    }
}

} // verus!
