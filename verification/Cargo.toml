[package]
name = "alveograph_exporter"
version = "0.1.0"
edition = "2021"
publish = false

[dependencies]
serde = { version = "=1.0.229", features = ["derive"] }
serde_json = "=1.0.151"
rust_xlsxwriter = "=0.99.1"
opener = { version = "=0.9.0", features = ["reveal"] }
