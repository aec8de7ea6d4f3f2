[package]
name = "sirang"
version = "0.1.0"
edition = "2021"
publish = false

[dependencies]
bytes = "1"
log = "0.4"
colog = "1"
clap = "4"
s2n-quic = "1"
tokio = { version = "1", features = ["full"] }
