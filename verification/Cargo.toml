[package]
name = "zoterable"
version = "0.1.0"
edition = "2021"
publish = false

[dependencies]
anyhow = "1"
base64 = "=0.22.1"
dirs = "6"
md5 = "=0.8.1"
reqwest = { version = "=0.12.28", default-features = false, features = ["blocking", "json", "rustls-tls"] }
serde = { version = "1", features = ["derive"] }
serde_json = "=1.0.154"
toml = "0.9"
uuid = { version = "=1.29.0", features = ["v4"] }
zip = { version = "=7.4.0", default-features = false, features = ["deflate"] }
