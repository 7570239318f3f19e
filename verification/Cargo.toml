[package]
name = "zeronet_protocol"
version = "0.1.0"
edition = "2021"
publish = false

[dependencies]
koibumi-base32 = "*"
rmp-serde = "*"
serde = { version = "*", features = ["derive"] }
serde_bytes = "*"
serde_json = "*"
thiserror = "*"
i2p = "*"
