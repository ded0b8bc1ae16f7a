[package]
name = "cursor_api"
version = "0.1.0"
edition = "2021"
publish = false

[dependencies]
base64 = "=0.22.1"
bytes = "=1.12.1"
chrono = "=0.4.45"
flate2 = "=1.1.10"
itoa = "=1.0.18"
prost = "=0.14.4"
rand = "=0.9.5"
reqwest = { version = "0.12", default-features = false }
sha2 = "=0.10.9"
ulid = "=1.2.1"
uuid = { version = "=1.29.0", features = ["v4"] }
