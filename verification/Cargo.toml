[package]
name = "cloakynode"
version = "0.1.0"
edition = "2021"
publish = false

[dependencies]
axum = "0.8"
rustix = { version = "1", features = ["fs"] }
serde = { version = "1", features = ["derive"] }
tokio = { version = "1", features = ["macros", "rt-multi-thread", "net", "process", "time", "sync", "signal"] }
