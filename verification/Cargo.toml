[package]
name = "band_lights"
version = "0.1.0"
edition = "2021"
publish = false

[dependencies]
anyhow = "*"
clap = { version = "*", features = ["derive"] }
crossbeam-channel = "*"
env_logger = "*"
json_comments = "*"
linux-embedded-hal = "*"
log = "*"
midir = "*"
midly = "*"
musical-note = "*"
rfm69 = "*"
serde = { version = "*", features = ["derive"] }
serde_json = "*"
signal-hook = "*"
