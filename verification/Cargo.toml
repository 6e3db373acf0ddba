[package]
name = "ftx_bot"
version = "0.1.0"
edition = "2021"
publish = false

[dependencies]
hmac = "0.11"
sha2 = "0.9"
hex = "0.4"
serde = { version = "1", features = ["derive"] }
serde_json = "1"
reqwest = { version = "0.11", features = ["json"] }
tokio = { version = "1", features = ["macros", "rt-multi-thread"] }
csv = "1"
ctrlc = "3"
lazy_static = "1"
pyo3 = "0.15"
