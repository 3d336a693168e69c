[package]
name = "nv_core"
version = "0.1.0"
edition = "2021"
publish = false

[dependencies]
chrono = "0.4"
dirs = "5"
fuzzy-matcher = "0.3"
gtk4 = { version = "0.9", features = ["v4_12"] }
libadwaita = "0.7"
serde = { version = "1", features = ["derive"] }
serde_json = "1"
uniffi = "0.28"

[dev-dependencies]
regex = "1"
