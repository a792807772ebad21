[package]
name = "akagi_native"
version = "0.1.0"
edition = "2021"
publish = false

[dependencies]
anyhow = "1"
flate2 = "1"
rayon = "1"
reqwest = { version = "0.12", default-features = false, features = ["json", "rustls-tls"] }
riichienv-core = "*"
serde = { version = "1", features = ["derive"] }
serde_json = "1"
