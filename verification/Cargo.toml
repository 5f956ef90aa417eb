[package]
name = "project_search"
version = "0.1.0"
edition = "2021"
publish = false

[dependencies]
chardetng = "0.1"
encoding_rs = "0.8"
ignore = "0.4"
notify = "*"
regex = "1"
serde = { version = "1", features = ["derive"] }
