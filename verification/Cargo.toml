[package]
name = "rpc_bridge"
version = "0.1.0"
edition = "2021"
publish = false

[dependencies]
iced = "0.1"
iced_native = "0.2"
serde = { version = "1", features = ["derive"] }
serde_json = "1"
