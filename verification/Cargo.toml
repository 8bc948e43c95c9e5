[package]
name = "rend"
version = "0.1.0"
edition = "2021"
publish = false

[dependencies]
num-bigint = "0.4"
num-traits = "0.2"
hex = "0.4"
tiny-keccak = { version = "2", features = ["keccak"] }
secp256k1 = { version = "0.29", features = ["recovery", "rand-std"] }
rand = "0.8"
indexmap = "2"
serde = { version = "1", features = ["derive"] }
serde_json = "1"
anyhow = "1"
thiserror = "1"
axum = { version = "0.7", features = ["ws"] }
tokio = { version = "1", features = ["full"] }
tower-http = { version = "0.5", features = ["trace"] }
tracing = "0.1"
tracing-subscriber = { version = "0.3", features = ["env-filter"] }
futures-util = "0.3"
rocksdb = "0.22"
async-trait = "0.1"
http = "1"
reqwest = { version = "0.12", default-features = false, features = ["json"] }
tokio-tungstenite = "0.24"
