[package]
name = "code_commit"
version = "0.1.0"
edition = "2021"
publish = false

[dependencies]
anyhow = "1"
ignore = "0.4"
path-clean = "1"
reqwest = { version = "0.12", default-features = false, features = ["json", "rustls-tls"] }
serde_json = "1"
tempfile = "3"
thiserror = "1"
tokio = { version = "1", features = ["macros", "rt-multi-thread", "fs"] }
