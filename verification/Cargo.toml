[package]
name = "storekey"
version = "0.1.0"
edition = "2021"
publish = false

[dependencies]
chacha20poly1305 = "=0.8.2"
getrandom = "=0.4.3"
hmac = "=0.11.0"
sha2 = "=0.9.9"
serde = { version = "1", features = ["derive"] }
serde_json = "1"
