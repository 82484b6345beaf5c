[package]
name = "pipspeak"
version = "0.1.0"
edition = "2021"
publish = false

[dependencies]
anyhow = "*"
chrono = "*"
clap = { version = "*", features = ["derive"] }
disambiseq = "*"
flate2 = "*"
fxread = "*"
hashbrown = "*"
indicatif = "*"
serde = { version = "*", features = ["derive"] }
serde_yaml = "*"
