[package]
name = "turicraft"
version = "0.1.0"
edition = "2021"
publish = false

[dependencies]
anyhow = "1"
base64 = "0.22"
dirs = "6"
futures = "0.3"
hex = "0.4"
keyring = "3"
md-5 = "0.10"
reqwest = { version = "0.12", default-features = false, features = ["json", "rustls-tls"] }
serde = { version = "1", features = ["derive"] }
serde_json = "1"
sha1 = "0.10"
sha2 = "0.10"
sysinfo = "0.33"
tokio = { version = "1", features = ["rt-multi-thread", "macros", "net", "io-util", "time", "fs", "process", "sync"] }
toml = "0.8"
toml_edit = "0.22"
uuid = { version = "1", features = ["v4"] }
