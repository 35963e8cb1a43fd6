[package]
name = "proof_gather"
version = "0.1.0"
edition = "2021"
publish = false

[dependencies]
alloy-primitives = "*"
futures = "*"
tokio = { version = "*", features = ["sync", "rt", "macros", "time"] }
tracing = "*"
