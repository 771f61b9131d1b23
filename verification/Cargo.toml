[package]
name = "dart_unused"
version = "0.1.0"
edition = "2021"
publish = false

[dependencies]
anyhow = "1"
clap = { version = "4", features = ["derive"] }
glob = "0.3"
log = "0.4"
path-dedot = "3"
serde = { version = "1", features = ["derive"] }
serde_json = "1"
serde_yaml2 = "*"
simplelog = "0.12"

[dev-dependencies]
nom = "7"
