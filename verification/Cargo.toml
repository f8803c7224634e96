[package]
name = "iceberg_planner"
version = "0.1.0"
edition = "2021"
publish = false

[dependencies]
arrow-schema = "58"
async-trait = "0.1"
datafusion = { version = "=53.1.0", default-features = false }
fnv = "1"
futures = "0.3"
parquet = { version = "58", default-features = false, features = ["arrow"] }
