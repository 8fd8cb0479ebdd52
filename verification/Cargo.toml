[package]
name = "ducklake"
version = "0.1.0"
edition = "2021"
publish = false

[dependencies]
url = "=2.5.8"
indexmap = "=2.14.2"
uuid = { version = "=1.29.0", features = ["v7"] }
chrono = "=0.4.45"
sea-query = { version = "=0.32.7", features = ["backend-sqlite", "backend-postgres", "backend-mysql", "with-uuid"] }
arrow-array = "=60.1.0"
arrow-arith = "=60.1.0"
arrow-schema = "=60.1.0"
object_store = "=0.14.2"
bytes = "=1.12.1"
futures = "=0.3.34"
getrandom = "=0.4.3"
tokio = { version = "=1.54.1", features = ["io-util"] }
