[package]
name = "py_license_auditor"
version = "0.1.0"
edition = "2021"
publish = false

[dependencies]
anyhow = "*"
chrono = { version = "*", features = ["serde"] }
clap = { version = "*", features = ["derive"] }
glob = "*"
indexmap = { version = "*", features = ["serde"] }
rayon = "*"
serde = { version = "*", features = ["derive"] }
serde_json = "*"
toml = "*"
toml_edit = "*"
