[package]
name = "text_span"
version = "0.1.0"
edition = "2021"
publish = false

[dependencies]
lazy-regex = "*"
anyhow = "*"
bytes = "*"
log = "*"
once_cell = "*"
reqwest = { version = "*", default-features = false }
tokio = { version = "*", features = ["time", "rt", "macros"] }
