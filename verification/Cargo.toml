[package]
name = "vartalaap"
version = "0.1.0"
edition = "2021"
publish = false

[dependencies]
anyhow = "1"
argon2 = { version = "0.5", default-features = false, features = ["alloc"] }
bs58 = "0.5"
chacha20poly1305 = "0.10"
ed25519-dalek = { version = "2", features = ["rand_core"] }
futures-lite = "2"
hex = "0.4"
iroh = { version = "1", default-features = false, features = ["tls-ring"] }
rand = "0.8"
redb = "2"
serde = { version = "1", features = ["derive"] }
serde_json = "1"
sha2 = "0.10"
thiserror = "2"
tokio = { version = "1", features = ["rt-multi-thread", "macros", "sync", "time"] }
vodozemac = { version = "0.10", default-features = false }
zeroize = "1"
