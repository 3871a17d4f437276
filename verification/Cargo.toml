[package]
name = "parqeye"
version = "0.1.0"
edition = "2021"
publish = false

[dependencies]
chrono = { version = "=0.4.45", default-features = false, features = ["std"] }
parquet = { version = "=60.0.0", default-features = false, features = ["snap", "flate2-rust_backend", "lz4", "brotli"] }
ratatui = "=0.29.0"
crossterm = "=0.28.1"
clap = { version = "=4.6.7", features = ["derive"] }
config = { version = "=0.15.27", default-features = false, features = ["toml"] }
directories = "=6.0.0"
serde = { version = "=1.0.229", features = ["derive"] }
