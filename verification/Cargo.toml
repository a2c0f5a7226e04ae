[package]
name = "gitrx"
version = "0.1.0"
edition = "2021"
publish = false

[dependencies]
base64 = "=0.22.1"
git2 = { version = "=0.19.0", default-features = false }
log = "=0.4.35"
notify = "=8.2.1"
serde = { version = "=1.0.229", features = ["derive"] }
serde_json = "=1.0.154"
thiserror = "=2.0.21"
tokio = { version = "=1.54.1", default-features = false, features = ["sync", "time", "rt"] }
trash = "=5.2.9"

[dev-dependencies]
tempfile = "3"
