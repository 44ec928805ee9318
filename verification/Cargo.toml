[package]
name = "soul_core"
version = "0.1.0"
edition = "2021"
publish = false

[dependencies]
serde = { version = "1", features = ["derive"] }
serde_json = "1"
libc = "0.2"
dirs-next = "2"
portable-pty = "*"
notify = "*"
