[package]
name = "tronomic"
version = "0.1.0"
edition = "2021"
publish = false

[dependencies]
serde = { version = "*", features = ["derive"] }
tokio = { version = "*", features = ["rt-multi-thread", "time", "macros"] }
parking_lot = "*"
slotmap = "*"
log = "*"
env_logger = "*"

[dev-dependencies]
artnet_protocol = "*"
