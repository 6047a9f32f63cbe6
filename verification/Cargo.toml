[package]
name = "home_inventory"
version = "0.1.0"
edition = "2021"
publish = false

[dependencies]
anyhow = "1"
base64 = "0.22"
clap = { version = "4", features = ["derive", "env"] }
getrandom = "0.2"
hmac = "0.12"
mdns-sd = "*"
pbkdf2 = "0.12"
roxmltree = "0.20"
rusqlite = { version = "0.31", features = ["bundled"] }
serde = { version = "1", features = ["derive"] }
serde_json = "1"
serde_yaml_ng = "0.10"
sha2 = "0.10"
tiny_http = "0.12"
ureq = { version = "2", default-features = false }

[dev-dependencies]
tempfile = "3"
