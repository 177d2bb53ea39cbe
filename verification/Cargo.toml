[package]
name = "session_tracker"
version = "0.1.0"
edition = "2021"
publish = false

[dependencies]
time = "0.1"
redis = { version = "*", default-features = false }
protobuf = "2"
