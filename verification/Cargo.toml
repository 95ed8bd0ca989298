[package]
name = "rust_bt"
version = "0.1.0"
edition = "2021"
publish = false

[dependencies]
chrono = "0.4"
polars = { version = "0.46", features = ["csv", "parquet", "dtype-date", "dtype-datetime"] }
serde = { version = "1", features = ["derive"] }
serde_yaml = "0.9"
anyhow = "1"
thiserror = "2"
log = "0.4"
env_logger = "0.11"
indicatif = "0.17"
