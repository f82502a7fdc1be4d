[package]
name = "oxi"
version = "0.1.0"
edition = "2021"
publish = false

[dependencies]
serde = { version = "=1.0.229", features = ["derive"] }
serde_json = "=1.0.154"
base64 = "=0.22.1"
url = "=2.5.8"
dirs = "=7.0.0"
sha2 = "=0.10.9"
rand = "=0.8.8"
zip = "=9.2.2"
flate2 = "=1.1.10"
tar = "0.4"
