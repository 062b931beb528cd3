[package]
name = "dcr"
version = "0.6.7"
edition = "2021"
publish = false

[dependencies]
toml = "0.8"
glob = "0.3"
sha2 = "0.10"
serde = { version = "1", features = ["derive"] }
serde_json = "1"
reqwest = { version = "0.12", default-features = false, features = ["blocking", "json", "rustls-tls"] }
self-replace = "1"
git2 = { version = "*", default-features = false }
ctrlc = "3"
