[package]
name = "yggdrasil-appearancelib"
version = "0.1.0"
edition = "2021"
publish = false

[dependencies]
anyhow = "1"
byteorder = "1"
clap = { version = "4", features = ["derive"] }
flate2 = "1"
image = { version = "0.25", default-features = false, features = ["png"] }
serde = { version = "1", features = ["derive"] }
serde_json = "1"
thiserror = "1"
