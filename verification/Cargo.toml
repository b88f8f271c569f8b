[package]
name = "mls_nack"
version = "0.1.0"
edition = "2021"
publish = false

[dependencies]
parity-scale-codec = { version = "1.3", features = ["derive"] }
rustls = "0.18"
secrecy = "0.7"
subtle = "2"
