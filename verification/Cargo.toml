[package]
name = "ledger_core"
version = "0.1.0"
edition = "2021"
publish = false

[dependencies]
base64 = "0.22"
bs58 = "0.5"
chacha20poly1305 = "0.10"
chrono = "0.4"
ed25519-dalek = "2"
hkdf = "0.12"
libp2p = { version = "0.55", features = ["tokio", "tcp", "noise", "yamux", "gossipsub", "kad", "mdns", "identify", "request-response", "cbor", "macros"] }
rand = "0.8"
serde = { version = "1", features = ["derive"] }
sha2 = "0.10"
tokio = { version = "1", features = ["rt-multi-thread", "sync", "macros", "time"] }
uuid = { version = "1", features = ["v4"] }
x25519-dalek = { version = "2", features = ["static_secrets"] }
