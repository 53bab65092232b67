[package]
name = "mission_monitor"
version = "0.1.0"
edition = "2021"
publish = false

[dependencies]
chrono = "*"
serde = { version = "*", features = ["derive"] }
rmp-serde = "*"
redis = "*"
clap = { version = "*", features = ["derive"] }
regex = "*"
encoding_rs = "*"
zstd = "*"
