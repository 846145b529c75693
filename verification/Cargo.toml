[package]
name = "ds210"
version = "0.1.0"
edition = "2021"
publish = false

[dependencies]
rand = "0.8"
csv = "1"
serde = { version = "1", features = ["derive"] }
ndarray = "0.15"
ndarray-rand = "0.14"
statrs = "0.16"
