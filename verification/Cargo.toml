[package]
name = "hop-endpoint"
version = "0.1.0"
edition = "2021"
publish = false

[dependencies]
base64 = "=0.22.1"
bs58 = "=0.5.1"
reqwest = { version = "=0.12.28", default-features = false, features = ["blocking"] }
tungstenite = { version = "=0.30.0", features = ["rustls-tls-webpki-roots"] }
