[package]
name = "toolbox_core"
version = "0.1.0"
edition = "2021"
publish = false

[dependencies]
rand = "0.8"
sha2 = "0.10"
blake3 = "1"
hex = "0.4"
base64 = "0.22"
murmur3 = "0.5"
tokio = { version = "1", features = ["rt-multi-thread", "net", "time", "sync", "io-util", "macros"] }
