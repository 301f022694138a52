[package]
name = "rtcli"
version = "0.1.0"
edition = "2021"
publish = false

[dependencies]
base64 = "*"
unicode-width = "*"
clap = { version = "4", features = ["derive", "env"] }
comfy-table = "*"
dirs = "*"
serde = { version = "1", features = ["derive"] }
serde_json = "1"
terminal_size = "*"
thiserror = "*"
toml = "*"
