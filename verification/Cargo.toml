[package]
name = "inscription_verifier"
version = "0.1.0"
edition = "2021"
publish = false

[dependencies]
anyhow = "1"
base64 = "0.13"
bitcoincore-rpc = "*"
bytes = "1"
cairo-felt = "*"
clap = { version = "3.2", features = ["derive"] }
env_logger = "0.10"
eyre = "0.6"
futures = "0.3"
hex = "0.4"
lambdaworks-math = "*"
log = "0.4"
rand = "0.8"
reqwest = { version = "0.11", default-features = false, features = ["json", "rustls-tls"] }
rustler = "*"
serde = { version = "1", features = ["derive"] }
serde_cbor = "0.11"
serde_json = "1"
tokio = { version = "1", features = ["macros", "net", "rt-multi-thread", "sync", "time"] }
tokio-util = { version = "0.7", features = ["codec"] }
