[package]
name = "rusty"
version = "0.1.0"
edition = "2021"
publish = false

[dependencies]
rand = "0.8"
ulid = "1"
uuid = { version = "1", features = ["v4"] }
textwrap = "0.16"
serde = { version = "1", features = ["derive"] }
serde_json = "1"
tokio = { version = "1", features = ["rt-multi-thread", "macros", "sync", "time"] }
