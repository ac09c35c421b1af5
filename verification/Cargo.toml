[package]
name = "auto_frs_schedule"
version = "0.1.0"
edition = "2021"
publish = false

[dependencies]
anyhow = "1"
calamine = "0.24"
clap = { version = "4", features = ["derive"] }
cuid = "1"
env_logger = "0.11"
indicatif = "0.17"
log = "0.4"
sqlx = { version = "0.7", default-features = false, features = ["mysql", "runtime-tokio"] }
tokio = { version = "1", features = ["macros", "rt-multi-thread", "fs", "io-util"] }
