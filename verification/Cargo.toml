[package]
name = "sort-governor"
version = "0.1.0"
edition = "2021"
publish = false

[dependencies]
async-fs-io = "*"
ciborium = "0.2"
futures-util = "0.3"
serde = { version = "1", features = ["derive"] }
thiserror = "*"
tokio = { version = "1", features = ["rt", "rt-multi-thread", "sync", "macros", "time"] }
tracing = "0.1"
uuid = { version = "1", features = ["v4"] }

[dev-dependencies]
tempfile = "3"
