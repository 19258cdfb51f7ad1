[package]
name = "drosse_discovery"
version = "0.1.0"
edition = "2021"
publish = false

[dependencies]
serde_json = "=1.0.151"
socket2 = { version = "=0.6.5", features = ["all"] }
