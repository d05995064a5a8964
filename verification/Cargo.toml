[package]
name = "opsense"
version = "0.1.0"
edition = "2021"
publish = false

[dependencies]
anyhow = "1"
arrow = { version = "=60.1.0", default-features = false }
async-trait = "0.1"
base64 = "=0.22.1"
chrono = { version = "0.4", default-features = false, features = ["clock"] }
comfy-table = "=7.2.2"
csv = "1"
futures-util = { version = "0.3", default-features = false }
kstring = "=2.0.2"
lmdb = "0.8"
prost = "=0.11.9"
rand = "0.8"
redis = { version = "=1.8.1", default-features = false, features = ["tokio-comp"] }
reedline = { version = "0.49", default-features = false }
reqwest = { version = "0.12", default-features = false, features = ["json"] }
serde = { version = "1", features = ["derive"] }
serde_json = "=1.0.154"
tokio = { version = "1", features = ["rt", "sync", "time", "macros"] }
tract-onnx = "=0.21.19"
uuid = { version = "1", default-features = false }
