[package]
name = "ubigeo"
version = "0.1.0"
edition = "2021"
publish = false

[dependencies]
anyhow = "1"
clap = { version = "4", features = ["derive"] }
clap_complete = "4"

[dev-dependencies]
serde_json = "1"
