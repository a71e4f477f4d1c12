[package]
name = "instrument_to_midi"
version = "0.1.0"
edition = "2021"
publish = false

[dependencies]
rustfft = "*"
cpal = "*"
midir = "*"
crossbeam-channel = "*"
clap = { version = "*", features = ["derive"] }
serde = { version = "*", features = ["derive"] }
serde_json = "*"
anyhow = "*"
chrono = "*"
env_logger = "*"
log = "*"

[dev-dependencies]
midly = "*"
