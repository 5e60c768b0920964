[package]
name = "argus"
version = "0.1.0"
edition = "2021"
publish = false

[dependencies]
sha2 = "0.10"
chrono = "0.4"
serde = { version = "1", features = ["derive"] }
serde_json = "1"
toml = "0.8"
bincode = "1"
flate2 = "1"
jwalk = "0.8"
clap = { version = "4", features = ["derive"] }
trash = "5"
