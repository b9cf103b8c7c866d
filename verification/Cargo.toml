[package]
name = "winx_code_agent"
version = "0.1.0"
edition = "2021"
publish = false

[dependencies]
sha2 = "=0.10.9"
similar = "=2.7.0"
serde = { version = "=1.0.229", features = ["derive"] }
serde_json = "=1.0.154"
anyhow = "=1.0.104"
thiserror = "=1.0.69"
uuid = { version = "=1.29.0", features = ["v4"] }
glob = "=0.3.4"
dirs = "5"
base64 = "0.22"
mime_guess = "2"
