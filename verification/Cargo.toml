[package]
name = "ghclient"
version = "0.1.0"
edition = "2021"
publish = false

[dependencies]
surf = { version = "2", default-features = false, features = ["h1-client-rustls"] }
futures = "0.3"
log = "0.4"
serde = { version = "1", features = ["derive"] }
serde_json = "1"
