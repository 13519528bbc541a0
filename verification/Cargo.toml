[package]
name = "elasticq"
version = "0.1.0"
edition = "2021"
publish = false

[dependencies]
bincode = "1.3"
serde = { version = "1", features = ["derive"] }
thiserror = "1"
parking_lot = "0.12"
tokio = { version = "1", features = ["sync", "time", "rt", "macros"] }
futures-core = "0.3"
memmap2 = "0.9"
metrics = "0.24"
