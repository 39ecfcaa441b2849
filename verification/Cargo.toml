[package]
name = "codebase_context"
version = "0.1.0"
edition = "2021"
publish = false

[dependencies]
anyhow = "1"
arboard = { version = "3", default-features = false }
chrono = "0.4"
clap = { version = "4", features = ["derive"] }
ignore = "0.4"
indicatif = "0.17"
rayon = "1"
regex = "1"
serde = { version = "1", features = ["derive"] }
serde_json = "1"
