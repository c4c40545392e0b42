[package]
name = "bedrock_proto"
version = "0.1.0"
edition = "2021"
publish = false

[dependencies]
base64 = "0.22"
jsonwebtoken = { version = "9", default-features = false }
serde_json = "1"
uuid = { version = "1", features = ["v4"] }
rak-rs = "*"
