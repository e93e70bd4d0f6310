[package]
name = "p2p_transport"
version = "0.1.0"
edition = "2021"
publish = false

[dependencies]
libp2p = { version = "0.54", default-features = false, features = ["tokio", "quic", "dns", "noise", "yamux", "relay", "macros", "ed25519"] }
tokio = { version = "1", features = ["rt-multi-thread", "macros", "sync", "time"] }
tokio-stream = { version = "0.1", features = ["time"] }
futures = "0.3"
async-trait = "0.1"
serde = { version = "1", features = ["derive"] }
thiserror = "1"
anyhow = "1"
log = "0.4"
clap = { version = "4", features = ["derive", "env"] }
