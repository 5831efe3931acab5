[package]
name = "timetable_core"
version = "0.1.0"
edition = "2021"
publish = false

[dependencies]
anyhow = "1"
chrono = "0.4"
clap = { version = "4", features = ["derive"] }
lopdf = "*"
regex = "1"
roxmltree = "*"
serde = { version = "1", features = ["derive"] }
svg = "*"
thiserror = "*"
toml = "*"
