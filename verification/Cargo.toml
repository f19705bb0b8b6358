[package]
name = "finality-grandpa"
version = "0.1.0"
edition = "2021"
publish = false

[dependencies]
futures = "0.3"
log = "0.4"
num = "0.4"
parity-scale-codec = { version = "3", features = ["derive"] }
parking_lot = "0.12"
scale-info = { version = "2", features = ["derive"] }
