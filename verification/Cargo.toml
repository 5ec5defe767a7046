[package]
name = "awslog_core"
version = "0.1.0"
edition = "2021"
publish = false

[dependencies]
duckdb = "1"
flate2 = "1"
parking_lot = "0.12"
rayon = "1"
regex = "1"
serde = { version = "1", features = ["derive"] }
serde_json = "1"
thiserror = "2"
time = { version = "0.3", features = ["formatting", "macros", "parsing"] }
walkdir = "2"
