[package]
name = "vibeshell"
version = "0.1.0"
edition = "2021"
publish = false

[dependencies]
shell-words = "=1.1.1"
serde = { version = "=1.0.229", features = ["derive"] }
serde_json = "=1.0.154"
toml = "=1.1.8"
clap = { version = "=4.6.7", features = ["derive"] }
signal-hook = "=0.3.18"
swayipc = "3"
zbus = "4"
