[package]
name = "strixcraft"
version = "0.1.0"
edition = "2021"
publish = false

[dependencies]
serde = { version = "*", features = ["derive"] }
serde_json = "*"
uuid = { version = "*", features = ["v4"] }
chrono = "*"
log = "*"
fern = "*"
tokio = { version = "*", features = ["rt-multi-thread", "macros", "sync", "time"] }
actix-web = "*"
actix-cors = "*"
actix-files = "*"
