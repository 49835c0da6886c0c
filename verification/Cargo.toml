[package]
name = "zurl"
version = "0.1.0"
edition = "2021"
publish = false

[dependencies]
url = "2"
anyhow = "1"
clap = { version = "4", features = ["derive"] }
clap-verbosity-flag = "*"
confy = "*"
dirs = "*"
env_logger = "*"
rusqlite = "*"
serde = { version = "1", features = ["derive"] }
