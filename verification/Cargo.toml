[package]
name = "siling"
version = "0.1.0"
edition = "2021"
publish = false

[dependencies]
chrono = "0.4"
uuid = { version = "1", features = ["v4"] }
serde = { version = "1", features = ["derive"] }
serde_json = "1"
async-trait = "0.1"
futures = "0.3"
futures-timer = "3"
async-broadcast = "*"
thiserror = "*"

[dev-dependencies]
tokio = { version = "1", features = ["macros", "rt", "time"] }
