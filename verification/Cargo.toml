[package]
name = "dirwatch"
version = "0.1.0"
edition = "2021"
publish = false

[dependencies]
notify = "=6.1.1"
notify-debouncer-full = "=0.3.2"
serde = { version = "1", features = ["derive"] }
