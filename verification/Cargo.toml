[package]
name = "statix"
version = "0.1.0"
edition = "2021"
publish = false

[dependencies]
rnix = "0.9"
serde = { version = "1", features = ["derive"] }
