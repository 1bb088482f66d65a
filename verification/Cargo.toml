[package]
name = "crosstalk"
version = "0.1.0"
edition = "2021"
publish = false

[dependencies]
cpal = "=0.17.3"
dasp = { version = "=0.11.0", features = ["signal"] }
ringbuf = "=0.4.8"
serde = { version = "=1.0.229", features = ["derive"] }
