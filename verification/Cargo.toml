[package]
name = "narm"
version = "0.1.0"
edition = "2021"
publish = false

[dependencies]
crc = "3"
csv = "1"
serde = { version = "1", features = ["derive"] }
toml = "*"
thiserror = "*"
anyhow = "1"
clap = { version = "4", features = ["derive", "env"] }
clap_complete = "4"
dirs = "*"
dotenvy = "*"
rusqlite = { version = "*", features = ["bundled"] }
serialport = { version = "4", default-features = false }
