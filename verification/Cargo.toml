[package]
name = "particelle"
version = "0.1.0"
edition = "2021"
publish = false

[dependencies]
sha2 = "=0.10.9"
rosc = "=0.10.1"
clap = { version = "=4.6.7", features = ["derive"] }
anyhow = "=1.0.104"
serde = { version = "=1.0.229", features = ["derive"] }
serde_json = "=1.0.154"
serde_yaml = "=0.9.34"
midir = "=0.10.4"
notify = "=6.1.1"
thiserror = "=1.0.69"
rustfft = "=6.4.1"
rubato = "*"
audioadapter = "*"
audioadapter-buffers = "*"
