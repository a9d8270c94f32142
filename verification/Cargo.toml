[package]
name = "dbfs2"
version = "0.1.0"
edition = "2021"
publish = false

[dependencies]
jammdb = "0.11"
spin = "0.9"
log = "0.4"
serde = { version = "1", features = ["derive"] }
serde_json = "1"
