[package]
name = "ble_scanner"
version = "0.1.0"
edition = "2021"
publish = false

[dependencies]
btleplug = "*"
pretty_env_logger = "*"
tokio = { version = "1", features = ["macros", "rt-multi-thread", "time"] }
uuid = "1"
