[package]
name = "sysmon"
version = "0.1.0"
edition = "2021"
publish = false

[dependencies]
anyhow = "*"
axum = "*"
futures-util = "*"
serde = { version = "*", features = ["derive"] }
thiserror = "*"
tokio = { version = "*", features = ["fs", "io-util", "macros", "net", "rt", "rt-multi-thread", "time"] }
tokio-stream = { version = "*", features = ["fs"] }
tracing = "*"
