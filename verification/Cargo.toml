[package]
name = "renegadex_patcher"
version = "0.1.0"
edition = "2021"
publish = false

[dependencies]
sha2 = "0.10"
hex = "0.4"
json = "0.12"
rust-ini = "0.18"
url = "2"
tokio = { version = "1", features = ["full"] }
futures = "0.3"
log = "0.4"
tracing = "0.1"
async-trait = "0.1"
download-async = "*"
crossbeam-queue = "0.3"
bit-vec = "0.6"
