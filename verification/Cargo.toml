[package]
name = "editorconfig_lint"
version = "0.1.0"
edition = "2021"
publish = false

[dependencies]
anyhow = "=1.0.104"
clap = { version = "=4.6.7", features = ["derive"] }
glob = "=0.3.4"
linked-hash-map = { version = "=0.5.6", features = ["serde_impl"] }
serde = { version = "=1.0.229", features = ["derive"] }
serde_ini = "=0.2.0"
serde_with = "=3.24.0"
thiserror = "=2.0.21"
