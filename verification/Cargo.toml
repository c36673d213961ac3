[package]
name = "blobnet"
version = "0.1.0"
edition = "2021"
publish = false

[dependencies]
anyhow = "1"
async-trait = "0.1"
auto_impl = "1"
aws-config = "0.51"
aws-sdk-s3 = "0.21"
base64 = "0.13"
cadence = "0.29"
cadence-macros = "0.29"
clap = { version = "4", features = ["derive", "env"] }
fastrand = "1"
hashlink = "0.8"
hex = "0.4"
hyper = { version = "0.14", features = ["full"] }
hyperlocal = "0.8"
parking_lot = "0.12"
scopeguard = "1"
sha2 = "0.10"
shadow-rs = "0.20"
shutdown = "*"
tempfile = "3"
tikv-jemalloc-ctl = "0.5"
tikv-jemallocator = "0.5"
tokio = { version = "1", features = ["full"] }
tokio-stream = "0.1"
tokio-util = { version = "0.7", features = ["io"] }
