[package]
name = "gandalf"
version = "0.1.0"
edition = "2021"
publish = false

[dependencies]
atoi = "*"
uuid = { version = "1", features = ["v4"] }
rand = "0.8"
bytes = "1"
tokio = { version = "1", features = ["full"] }
serde = { version = "1", features = ["derive"] }
serde_json = "1"
serde_yaml = "*"
structopt = "0.3"
tracing = "0.1"
tracing-subscriber = "0.3"
