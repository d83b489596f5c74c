[package]
name = "open_storage"
version = "0.1.0"
edition = "2021"
publish = false

[dependencies]
sha2 = "0.10"
itertools = "0.10"
candid = "*"
serde = { version = "1", features = ["derive"] }
serde_bytes = "0.11"
ic-cdk = "*"
tracing = "0.1"
