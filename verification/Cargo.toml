[package]
name = "tag_catalog"
version = "0.1.0"
edition = "2021"
publish = false

[dependencies]
arc-swap = "1"
chrono = "0.4"
deunicode = "1"
Inflector = "0.11"
once_cell = "1"
poem-openapi = { version = "2", features = ["url", "chrono"] }
scylla = "0.8"
serde = { version = "1", features = ["derive"] }
serde_json = "1"
url = "2"
