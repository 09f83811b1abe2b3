[package]
name = "json_formula_rs"
version = "0.1.0"
edition = "2021"
publish = false

[dependencies]
regex = "1"
serde_json = "1"
serde = { version = "1", features = ["derive"] }
chrono = "0.4"
indexmap = "2"
rand = "0.8"
thiserror = "1"
