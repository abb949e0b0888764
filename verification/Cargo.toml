[package]
name = "amqp_source"
version = "0.1.0"
edition = "2021"
publish = false

[dependencies]
chrono = { version = "0.4", default-features = false, features = ["clock", "std"] }
lapin = { version = "2", default-features = false }
bytes = "1"
futures = "0.3"
tokio = { version = "1", features = ["macros", "rt", "sync", "time"] }
tokio-util = { version = "0.7", features = ["codec"] }
async-stream = "0.3"
async-trait = "0.1"
snafu = "0.7"
serde = { version = "1", features = ["derive"] }
