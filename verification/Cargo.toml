[package]
name = "meteogram"
version = "0.1.0"
edition = "2021"
publish = false

[dependencies]
percent-encoding = "*"
anyhow = "*"
clap = { version = "*", features = ["derive"] }
open = "*"
reqwest = { version = "*", default-features = false, features = ["blocking", "rustls-tls"] }
