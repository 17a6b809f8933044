[package]
name = "mpc_node"
version = "0.1.0"
edition = "2021"
publish = false

[dependencies]
bls12_381 = "0.8"
ff = "0.13"
group = "0.13"
rand = "0.8"
blake3 = "1"
hex = "0.4"
libp2p = { version = "0.54", features = ["tokio", "tcp", "quic", "noise", "yamux", "gossipsub", "mdns", "request-response", "cbor", "macros", "ed25519"] }
serde = { version = "1", features = ["derive"] }
serde_json = "1"
serde_cbor = "0.11"
tokio = { version = "1", features = ["full"] }
futures = "0.3"
anyhow = "1"
tracing = "0.1"
tracing-subscriber = { version = "0.3", features = ["env-filter"] }
tracing-appender = "0.2"
