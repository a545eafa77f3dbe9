[package]
name = "dsh-desktop"
version = "0.1.0"
edition = "2021"
publish = false

[dependencies]
base64 = "0.22"
minisign-verify = "0.2"
serde = { version = "1", features = ["derive"] }
serde_json = "1"
url = "2"
ureq = "2"
