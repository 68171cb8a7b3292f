[package]
name = "trunk_lib"
version = "0.1.0"
edition = "2021"
publish = false

[dependencies]
git2 = { version = "=0.20.4", default-features = false }
syntect = "=5.3.0"
serde = { version = "=1.0.229", features = ["derive"] }
serde_json = "=1.0.154"
uuid = { version = "=1.29.1", features = ["v4"] }
tempfile = "=3.27.0"
libc = "0.2"
tokio = { version = "1", features = ["process"] }
notify-debouncer-mini = "0.4"
