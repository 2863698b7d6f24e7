[package]
name = "vibe_manager"
version = "0.1.0"
edition = "2021"
publish = false

[dependencies]
uuid = { version = "1", features = ["v4"] }
serde = { version = "1", features = ["derive"] }
serde_json = "1"
sysinfo = "0.33"
libc = "0.2"

[dev-dependencies]
tempfile = "3"
