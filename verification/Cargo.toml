[package]
name = "voxygen"
version = "0.1.0"
edition = "2021"
publish = false

[dependencies]
specs = "0.20"
crossbeam-channel = "0.5"
tokio = { version = "1", default-features = false, features = ["rt", "rt-multi-thread", "time"] }
tracing = "0.1"
vek = "0.17"
conrod_core = "*"
