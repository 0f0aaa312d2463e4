[package]
name = "s3_decrypt"
version = "0.1.0"
edition = "2021"
publish = false

[dependencies]
anyhow = "1"
base64 = "0.13"
env_logger = "*"
futures = "0.3"
libsodium-sys = "0.2"
rusoto_core = { version = "0.48", default-features = false, features = ["rustls"] }
rusoto_s3 = { version = "0.48", default-features = false, features = ["rustls"] }
rust-s3 = { version = "*", default-features = false, features = ["tokio-rustls-tls"] }
serde = { version = "1", features = ["derive"] }
serde_json = "1"
sodiumoxide = "0.2"
tokio = { version = "1", features = ["rt-multi-thread"] }
