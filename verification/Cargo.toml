[package]
name = "cargo_save"
version = "0.1.0"
edition = "2021"
publish = false

[dependencies]
anyhow = "*"
blake3 = "*"
cargo_metadata = "*"
chrono = "*"
clap = { version = "*", features = ["derive"] }
dirs = "*"
rayon = "*"
serde = { version = "*", features = ["derive"] }
serde_json = "*"
walkdir = "*"
