[package]
name = "nono_guard"
version = "0.1.0"
edition = "2021"
publish = false

[dependencies]
libc = "0.2"
nono = { version = "=0.45.0", default-features = false }
nono-proxy = { version = "=0.45.0", default-features = false }
pyo3 = { version = "=0.28.3", features = ["abi3-py310"] }
serde = { version = "1", features = ["derive"] }
serde_json = "1"
