[package]
name = "minecraft_sourcecode_tracker"
version = "0.1.0"
edition = "2021"
publish = false

[dependencies]
anyhow = "1"
chrono = "0.4"
clap = { version = "4", features = ["derive"] }
git2 = "*"
log = "0.4"
obsidian-scheduler = "*"
pretty_env_logger = "0.5"
reqwest = { version = "0.12", default-features = false, features = ["json", "rustls-tls"] }
serde_json = "1"
thiserror = "2"
tokio = { version = "1", features = ["full"] }
which = "*"
