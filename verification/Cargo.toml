[package]
name = "awscredx"
version = "0.1.0"
edition = "2021"
publish = false

[dependencies]
ansi_term = "0.12"
chrono = { version = "0.4", features = ["serde"] }
clap = "2"
hyper = { version = "0.14", features = ["client", "http1", "tcp"] }
hyper-proxy = "0.9"
hyper-tls = "0.5"
linked-hash-map = { version = "0.5", features = ["serde_impl"] }
reqwest = { version = "0.11", features = ["blocking", "json"] }
rusoto_core = "0.48"
rusoto_credential = "0.48"
rusoto_iam = "0.48"
rusoto_sts = "0.48"
serde = { version = "1", features = ["derive"] }
serde_json = "1"
serde_urlencoded = "0.7"
tokio = { version = "1", features = ["rt"] }
toml = "0.5"
webbrowser = "0.8"
