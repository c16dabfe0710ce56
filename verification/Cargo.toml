[package]
name = "kiorg"
version = "0.1.0"
edition = "2021"
publish = false

[dependencies]
dirs = "=7.0.0"
serde = { version = "=1.0.229", features = ["derive"] }
serde_json = "=1.0.154"
clap = { version = "=4.6.7", features = ["derive", "env"] }
notify = "=8.2.1"
tempfile = "=3.27.0"
tokio = { version = "=1.54.1", features = ["process", "fs", "macros", "rt-multi-thread"] }
zbus = { version = "=6.2.1", default-features = false, features = ["tokio", "service"] }
tracing = "=0.1.44"
tracing-subscriber = { version = "=0.3.23", features = ["env-filter"] }
