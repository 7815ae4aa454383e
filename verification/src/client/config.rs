use vstd::prelude::*;

verus! {

/// VPN configuration.
pub struct VpnConfig {
    /// TUN device configuration.
    pub tun: TunConfig,
    /// QUIC protocol configuration.
    pub quic: QuicConfig,
    /// User configuration.
    pub user: UserConfig,
}

/// TUN virtual interface configuration.
pub struct TunConfig {
    /// TUN device name; when absent the OS assigns one.
    pub name: Option<String>,
    /// Maximum transmission unit: the largest packet in bytes.
    pub mtu: u16,
    /// Whether to route traffic through the device.
    pub setup_routes: bool,
}

/// QUIC protocol configuration, used to talk to the server.
pub struct QuicConfig {
    /// Reconnection interval in milliseconds.
    pub reconnect_interval_ms: u64,
    /// Server address.
    pub server_address: core::net::SocketAddr,
    /// Server name.
    pub server_name: String,
    /// Address of the local QUIC endpoint.
    pub endpoint_address: core::net::SocketAddr,
    /// Receive buffer size for datagrams, in kilobytes.
    pub receive_buffer_size_kb: usize,
    /// Send buffer size for datagrams, in kilobytes.
    pub send_buffer_size_kb: usize,
    /// Path to the server certificate.
    pub server_cert: Option<String>,
    /// Whether to trust the system's certificates.
    pub load_native_certs: bool,
}

/// The user this client authenticates as.
pub struct UserConfig {
    /// User name.
    pub name: String,
    /// Secret shared with the server.
    pub secret: String,
}

} // verus!
