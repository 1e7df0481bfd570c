[package]
name = "lianli_link"
version = "0.1.0"
edition = "2021"
publish = false

[dependencies]
anyhow = "1"
image = { version = "0.25", default-features = false, features = ["jpeg", "png"] }
libc = "0.2"
parking_lot = "0.12"
rusb = "0.9"
serde_json = "1"
tracing = "0.1"
