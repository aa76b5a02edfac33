[package]
name = "landrop"
version = "0.1.0"
edition = "2021"
publish = false

[dependencies]
rcgen = "0.11"
nix = { version = "0.29", features = ["net"] }
qr2term = "0.3"
tide = "0.16"
tide-rustls = "0.3"
rustls = "0.19"
async-std = "1"
http-types = "2"
