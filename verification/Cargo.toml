[package]
name = "powderman"
version = "0.1.0"
edition = "2021"
publish = false

[dependencies]
anyhow = "=1.0.104"
chrono = "=0.4.45"
chumsky = "=0.10.1"
clap = { version = "=4.6.7", features = ["derive"] }
schemars = "1"
serde = { version = "=1.0.229", features = ["derive"] }
serde_json = "=1.0.154"
similar = "=2.7.0"
