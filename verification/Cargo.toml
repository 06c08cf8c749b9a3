[package]
name = "dynamic_string"
version = "0.1.0"
edition = "2021"
publish = false

[dependencies]
glib = "0.17"
gtk = "0.17"
serde = { version = "1", features = ["derive"] }
tokio = { version = "1", features = ["rt-multi-thread", "sync"] }
tracing = "0.1"
