[package]
name = "datadiff"
version = "0.1.0"
edition = "2021"
publish = false

[dependencies]
rustc-hash = "*"
anyhow = "*"
clap = { version = "*", features = ["derive"] }
chrono = "*"
serde = { version = "*", features = ["derive"] }
serde_json = "*"
indexmap = "*"
termcolor = "*"
calamine = "*"
csv = "*"
arrow = "*"
parquet = "*"
