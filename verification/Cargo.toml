[package]
name = "guardian_db"
version = "0.1.0"
edition = "2021"
publish = false

[dependencies]
blake3 = "=1.8.7"
bytes = "=1.12.1"
chrono = { version = "=0.4.45", default-features = false, features = ["alloc", "now", "serde"] }
ed25519-dalek = { version = "=3.0.0", features = ["serde"] }
futures = "=0.3.34"
hex = "=0.4.3"
iroh = { version = "=1.4.1", default-features = false, features = ["tls-ring"] }
iroh-gossip = "=0.101.0"
lru = "=0.19.0"
postcard = { version = "=1.1.3", features = ["alloc"] }
rand = "=0.9.5"
serde = { version = "=1.0.229", features = ["derive"] }
serde_cbor = "=0.11.2"
serde_json = "=1.0.154"
tokio = { version = "=1.54.1", features = ["macros", "rt", "sync", "time", "fs", "io-util", "net"] }
tracing = "=0.1.44"
uuid = { version = "=1.29.0", features = ["v4", "serde"] }
zstd = "=0.13.4"
