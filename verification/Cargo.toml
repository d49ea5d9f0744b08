[package]
name = "nym_client"
version = "0.1.0"
edition = "2021"
publish = false

[dependencies]
base64 = "=0.13.1"
rand = "=0.8.8"
clap = "=2.34.0"
tokio = { version = "=0.2.25", features = ["full"] }
curve25519-dalek = "3"
