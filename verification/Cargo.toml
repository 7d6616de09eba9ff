[package]
name = "turing"
version = "0.1.0"
edition = "2021"
publish = false

[dependencies]
csv = "1"
serde = { version = "1", features = ["derive"] }
pico-args = "0.5"
signal-hook = "0.3"
