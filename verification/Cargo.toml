[package]
name = "gororoba"
version = "0.1.0"
edition = "2021"
publish = false

[dependencies]
serde = { version = "=1.0.229", features = ["derive"] }
serde_json = "=1.0.154"
axum = "=0.8.9"
tokio = { version = "=1.54.1", features = ["macros", "rt-multi-thread", "net"] }
tracing = "=0.1.44"
tracing-subscriber = { version = "=0.3.23", features = ["env-filter"] }
rayon = "=1.12.0"
urlencoding = "2"
reqwest = { version = "0.12", default-features = false, features = ["json"] }
ash = "0.38"
cudarc = "*"
