[package]
name = "hoptodesk"
version = "0.1.0"
edition = "2021"
publish = false

[dependencies]
qrcode-generator = "=4.1.9"
serde = { version = "=1.0.229", features = ["derive"] }
serde_json = "=1.0.154"
lazy_static = "=1.5.1"
sciter-rs = "=0.5.58"
