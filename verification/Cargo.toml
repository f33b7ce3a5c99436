[package]
name = "family_album"
version = "0.1.0"
edition = "2021"
publish = false

[dependencies]
anyhow = "=1.0.104"
chrono = { version = "=0.4.45", features = ["serde"] }
clap = { version = "=4.6.7", features = ["derive"] }
ffmpeg-sidecar = "=2.7.0"
filetime = "=0.2.29"
indicatif = "=0.18.6"
log = "=0.4.34"
reqwest = { version = "=0.13.5", features = ["cookies", "form"] }
serde = { version = "=1.0.229", features = ["derive"] }
serde_json = "=1.0.154"
tokio = { version = "=1.54.1", features = ["macros", "rt-multi-thread"] }
