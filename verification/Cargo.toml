[package]
name = "tlstap"
version = "0.1.0"
edition = "2021"
publish = false

[dependencies]
anyhow = "*"
clap = { version = "*", features = ["derive"] }
rustls-platform-verifier = "*"
rustls-webpki = "*"
time = { version = "*", features = ["formatting", "local-offset"] }
tokio = { version = "*", features = ["net", "io-util", "rt-multi-thread", "macros"] }
tokio-rustls = { version = "*", default-features = false, features = ["ring", "tls12", "logging"] }
