[package]
name = "chatwarp_api"
version = "0.1.0"
edition = "2021"
publish = false

[dependencies]
sha2 = "=0.10.9"
hkdf = "=0.12.4"
aes-gcm = "=0.10.3"
x25519-dalek = { version = "=2.0.1", features = ["static_secrets"] }
curve25519-dalek = "=4.1.3"
ed25519-dalek = "=2.2.0"
rand_core = { version = "=0.6.4", features = ["getrandom"] }
base64 = "=0.22.1"
regex = "=1.13.1"
flate2 = "=1.1.10"
md5 = "=0.7.0"
serde = { version = "=1.0.229", features = ["derive"] }
serde_json = "=1.0.154"
prost = "=0.13.5"
qrcode = { version = "=0.14.1", default-features = false, features = ["svg"] }
tokio = { version = "=1.54.1", features = ["rt", "macros", "net", "sync", "time"] }
tokio-tungstenite = "=0.24.0"
futures = "=0.3.34"
http = "=1.5.0"
bytes = "=1.12.1"
reqwest = { version = "0.12", default-features = false, features = ["rustls-tls"] }
