[package]
name = "surreal_lance"
version = "0.1.0"
edition = "2021"
publish = false

[dependencies]
anyhow = "1"
arrow-array = "57"
arrow-schema = "57"
async-trait = "0.1"
chrono = "0.4"
ciborium = "0.2"
dashmap = "6"
futures = "0.3"
hex = "0.4"
ractor = "*"
revision = "*"
serde = { version = "1", features = ["derive"] }
tokio = { version = "1", features = ["full"] }
tracing = "0.1"
uuid = { version = "1", features = ["v4", "v7"] }
web-time = "1"
