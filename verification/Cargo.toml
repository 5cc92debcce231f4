[package]
name = "bookpress"
version = "0.1.0"
edition = "2021"
publish = false

[dependencies]
hayagriva = "*"
html_parser = "*"
pandoc = "*"
uuid = { version = "1", features = ["v4"] }
tokio = { version = "1", features = ["rt-multi-thread", "macros", "time", "fs", "io-util"] }
serde = { version = "1", features = ["derive"] }
serde_json = "1"
chrono = "0.4"
