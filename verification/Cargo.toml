[package]
name = "table_extract"
version = "0.1.0"
edition = "2021"
publish = false

[dependencies]
regex = "1"
serde = "1"
serde_json = "1"
clap = { version = "4", features = ["derive"] }
tempfile = "3"
