[package]
name = "keeper"
version = "0.1.0"
edition = "2021"
publish = false

[dependencies]
anyhow = "1"
chrono = { version = "0.4", features = ["serde"] }
dirs = "*"
dropshot = "0.10"
getopts = "0.2"
hyper = "0.14"
rand = "0.8"
reqwest = { version = "0.11", default-features = false, features = ["json", "rustls-tls"] }
schemars = { version = "0.8", features = ["chrono"] }
serde = { version = "1", features = ["derive"] }
serde_json = "1"
slog = "2"
tokio = { version = "1", features = ["macros", "rt-multi-thread", "sync"] }
