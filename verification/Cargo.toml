[package]
name = "decentralization"
version = "0.1.0"
edition = "2021"
publish = false

[dependencies]
counter = "=0.5.7"
serde = { version = "=1.0.229", features = ["derive"] }
serde_json = "=1.0.154"
strum = "=0.24.1"
strum_macros = "=0.24.3"
clap = { version = "=3.2.25", features = ["derive", "env"] }
reqwest = { version = "=0.11.27", default-features = false }
base64 = "=0.21.7"
crossbeam = "=0.8.5"
slog = "=2.8.2"
tokio = { version = "=1.54.1", features = ["sync", "rt"] }
warp = { version = "=0.3.7", default-features = false }
