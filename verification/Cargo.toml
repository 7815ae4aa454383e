[package]
name = "tuic"
version = "0.1.0"
edition = "2021"
publish = false

[dependencies]
sha2 = "=0.10.9"
etherparse = "=0.16.0"
anyhow = "=1.0.104"
bytes = "=1.12.1"
clap = { version = "=4.6.7", features = ["derive"] }
config = { version = "=0.14.1", default-features = false, features = ["toml"] }
dashmap = "=6.2.1"
quinn = { version = "=0.11.12", default-features = false, features = ["runtime-tokio", "rustls-ring", "log"] }
rand = "=0.9.5"
rcgen = { version = "=0.14.10", default-features = false, features = ["ring", "pem"] }
rustls = { version = "=0.23.46", default-features = false, features = ["ring", "std", "logging", "tls12"] }
rustls-native-certs = "=0.8.5"
serde = { version = "=1.0.229", features = ["derive"] }
tokio = { version = "=1.54.1", features = ["full"] }
tokio-util = { version = "=0.7.20", features = ["rt"] }
tracing = "=0.1.44"
tracing-subscriber = "=0.3.23"
tun-rs = { version = "2", default-features = false, features = ["async"] }
default-net = "0.22"
