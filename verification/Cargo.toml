[package]
name = "pot"
version = "0.1.0"
edition = "2021"
publish = false

[dependencies]
chrono = "0.4"
ndm = "*"
once_cell = "1"
rand = "0.8"
serde = { version = "1", features = ["derive"] }
serenity = { version = "0.11", features = ["collector"] }
tokio = { version = "1", features = ["macros", "rt-multi-thread", "time", "sync"] }
toml = "0.5"
