[package]
name = "ponged"
version = "0.1.0"
edition = "2021"
publish = false

[dependencies]
libp2p = { version = "=0.56.0", features = ["tokio", "tcp", "noise", "yamux", "mdns", "ping", "identify", "rendezvous", "kad", "relay", "dcutr", "request-response", "cbor", "macros", "ed25519"] }
rusqlite = { version = "=0.37.0", features = ["bundled-sqlcipher-vendored-openssl"] }
rand = "=0.9.5"
sha2 = "=0.10.9"
serde = { version = "1", features = ["derive"] }
serde_json = "=1.0.154"
tokio = { version = "1", features = ["full"] }
cbor4ii = { version = "0.3", features = ["serde1", "use_std"] }
dirs = "6"
reqwest = { version = "0.12", default-features = false, features = ["blocking", "json"] }
