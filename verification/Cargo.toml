[package]
name = "uptime_ledger"
version = "0.1.0"
edition = "2021"
rust-version = "1.95"
publish = false

[dependencies]
anyhow = "=1.0.104"
clap = { version = "=4.6.7", features = ["derive"] }
env_logger = "=0.11.11"
futures-util = "=0.3.34"
isahc = "=1.8.3"
log = "=0.4.34"
once_cell = "=1.21.4"
serde = { version = "=1.0.229", features = ["derive"] }
serde_json = "=1.0.154"
serde_yaml = "=0.9.34"
smol = "=2.0.2"
smolscale = "=0.4.16"
sqlx = { version = "=0.9.0", default-features = false, features = ["sqlite", "runtime-smol"] }
takecell = "<0.1.2"
teloxide = { version = "=0.17.0", default-features = false, features = ["ctrlc_handler"] }
