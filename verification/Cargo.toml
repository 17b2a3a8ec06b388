[package]
name = "doki"
version = "0.1.0"
edition = "2021"
publish = false

[dependencies]
anyhow = "=1.0.104"
aws-config = "=1.12.0"
aws-sdk-s3 = "=1.152.0"
aws-types = "=1.6.0"
base64 = "=0.22.1"
clap = "=4.6.7"
config = "=0.14.1"
flate2 = "=1.1.10"
log = "=0.4.34"
rocket = "=0.5.2"
serde = { version = "=1.0.229", features = ["derive"] }
tar = "=0.4.46"
tokio = { version = "=1.54.1", features = ["fs", "io-util", "rt-multi-thread", "macros", "time"] }
uuid = { version = "=1.29.0", features = ["v4"] }
zip = { version = "=0.6.6", default-features = false, features = ["deflate"] }
