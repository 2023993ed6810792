[package]
name = "ordiknots"
version = "0.1.0"
edition = "2021"
publish = false

[dependencies]
anyhow = "1"
axum = "0.8"
base64 = "0.22"
bitcoin = { version = "0.32", features = ["rand-std"] }
bitcoin_hashes = "0.14"
bitcoincore-rpc = "0.19"
clap = { version = "4", features = ["derive"] }
indicatif = "0.17"
rand = "0.8"
redb = "3"
tokio = { version = "1", features = ["macros", "rt-multi-thread", "net"] }
