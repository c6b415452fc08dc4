[package]
name = "sase_core"
version = "0.1.0"
edition = "2021"
publish = false

[dependencies]
async-trait = "*"
axum = "*"
chrono = "*"
futures-util = "*"
hudsucker = "*"
opener = "*"
rcgen = "*"
serde = { version = "*", features = ["derive"] }
tokio = { version = "*", features = ["full"] }
tokio-stream = { version = "*", features = ["sync"] }
tower-http = { version = "*", features = ["fs"] }
tracing = "*"
tracing-appender = "*"
tracing-subscriber = { version = "*", features = ["json"] }
