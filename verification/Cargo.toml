[package]
name = "swiboe"
version = "0.1.0"
edition = "2021"
publish = false

[dependencies]
mio = { version = "1", features = ["os-poll", "net"] }
serde = { version = "1", features = ["derive"] }
serde_json = "1"
tempdir = "0.3"
threadpool = "1"
time = { version = "0.3", features = ["formatting"] }
uuid = { version = "1", features = ["v4"] }
