[package]
name = "pixeldeck"
version = "0.1.0"
edition = "2021"
publish = false

[dependencies]
regex = "1"
plotters = { version = "0.3", default-features = false, features = ["svg_backend", "line_series"] }
serde = { version = "1", features = ["derive"] }
serde_json = "1"
anyhow = "1"
log = "0.4"
simplelog = "0.12"
tokio = { version = "1", features = ["rt-multi-thread", "macros", "sync", "time"] }
reqwest = { version = "0.12", default-features = false, features = ["json", "rustls-tls"] }
chrono = "0.4"
urlencoding = "2"
openaction = "*"
