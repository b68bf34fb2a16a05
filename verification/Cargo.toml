[package]
name = "verified_rcv"
version = "0.1.0"
edition = "2021"
publish = false

[dependencies]
sha2 = "=0.10.9"
hex = "=0.4.3"
borsh = "=1.8.1"
ecies = { version = "=0.2.14", default-features = false, features = ["pure"] }
k256 = { version = "=0.13.4", features = ["ecdsa"] }
serde = { version = "=1.0.229", features = ["derive"] }
serde_json = "=1.0.154"
cosmwasm-std = "=3.0.11"
cw-storage-plus = "=3.0.1"
thiserror = "=2.0.21"
urlencoding = "=2.1.3"
tokio = { version = "=1.54.1", features = ["rt-multi-thread", "macros", "net", "io-util"] }
async-trait = "=0.1.92"
reqwest = { version = "=0.12.28", default-features = false, features = ["json"] }
prost = "=0.14.4"
base64 = "=0.22.1"
dcap-qvl = "*"
