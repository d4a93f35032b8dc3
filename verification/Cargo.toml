[package]
name = "hirodrop_core"
version = "0.1.0"
edition = "2021"
publish = false

[dependencies]
aes = "=0.8.4"
aes-gcm = "=0.10.3"
base64 = "=0.22.1"
cbc = { version = "=0.1.2", features = ["alloc"] }
hkdf = "=0.12.4"
hmac = "=0.12.1"
sha2 = "=0.10.9"
p256 = { version = "=0.13.2", features = ["ecdh", "ecdsa"] }
rand = "=0.8.8"
mdns-sd = "=0.21.7"
socket2 = "=0.5.10"
serde = { version = "=1.0.229", features = ["derive"] }
serde_json = "=1.0.154"
thiserror = "=2.0.21"
qrcode = { version = "0.14", default-features = false }
