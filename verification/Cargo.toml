[package]
name = "claurst"
version = "0.1.0"
edition = "2021"
publish = false

[dependencies]
pqcrypto-kyber = "0.8"
pqcrypto-traits = "0.3"
chacha20poly1305 = "0.10"
hkdf = "0.12"
sha2 = "0.10"
flate2 = "1"
getrandom = "0.2"
base64 = "0.22"
serde = { version = "1", features = ["derive"] }
serde_json = "1"
uuid = { version = "1", features = ["v4"] }
dashmap = "6"
once_cell = "1"
tracing = "0.1"
thiserror = "1"
async-trait = "0.1"
async-stream = "0.3"
futures = "0.3"
regex = "1"
reqwest = { version = "0.12", default-features = false, features = ["json", "stream"] }
playwright-rs = "*"
