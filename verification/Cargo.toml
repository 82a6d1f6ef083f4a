[package]
name = "json_table"
version = "0.1.0"
edition = "2021"
publish = false

[dependencies]
serde_json = { version = "1", features = ["preserve_order"] }
cli-table = { version = "0.4", default-features = false }
clap = "3"
