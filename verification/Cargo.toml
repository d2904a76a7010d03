[package]
name = "codex_fast"
version = "0.1.0"
edition = "2021"
publish = false

[dependencies]
anyhow = "=1.0.104"
base64 = "=0.22.1"
quick-xml = "0.41"
serde_json = "=1.0.154"
sha2 = "=0.11.1"
