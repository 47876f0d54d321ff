[package]
name = "sable_core"
version = "0.1.0"
edition = "2021"
publish = false

[dependencies]
sha2 = "0.10"
getrandom = "0.2"
hkdf = "0.12"
serde = { version = "1", features = ["derive"] }
serde_json = "1"
zeroize = { version = "1", features = ["derive"] }
subtle = "2"
rustls-webpki = { version = "0.103", features = ["ring"] }
rustls-pki-types = "1"
x509-parser = "0.16"
x25519-dalek = "2"
