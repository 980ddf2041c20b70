[package]
name = "ghr-stats"
version = "0.2.1"
edition = "2021"
publish = false

[dependencies]
anyhow = "1"
crossbeam-channel = "0.5"
ctrlc = "3"
dialoguer = { version = "0.11", features = ["password"] }
nix = { version = "0.29", features = ["fs", "feature", "socket", "user"] }
rusqlite = { version = "0.32", features = ["bundled"] }
serde = { version = "1", features = ["derive"] }
serde_json = "1"
tempfile = "3"
thiserror = "2"
tiny_http = "0.12"
toml = "0.8"
tracing = "0.1"
ureq = { version = "3", features = ["json"] }
uzers = "0.12"
