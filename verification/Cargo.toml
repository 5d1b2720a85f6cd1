[package]
name = "yell_guard"
version = "0.1.0"
edition = "2021"
publish = false

[dependencies]
anyhow = "1"
chrono = "0.4"
clap = { version = "4", features = ["derive"] }
cpal = "0.15"
ctrlc = "3"
dirs = "5"
notify-rust = "4"
rodio = { version = "0.19", default-features = false }
serde = { version = "1", features = ["derive"] }
serde_json = "1"
