[package]
name = "p2pool_node"
version = "0.1.0"
edition = "2021"
publish = false

[dependencies]
libp2p = { version = "*", features = ["tokio", "tcp", "noise", "yamux", "gossipsub", "mdns", "kad", "identify", "request-response", "cbor", "macros", "ed25519"] }
tokio = { version = "*", features = ["rt", "macros", "sync"] }
tracing = "*"
