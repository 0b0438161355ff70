[package]
name = "agapornis_agent"
version = "0.1.0"
edition = "2021"
publish = false

[dependencies]
aes-gcm = "=0.10.3"
anyhow = "1"
base64 = "=0.22.1"
bytes = "1"
chrono = "=0.4.45"
hex = "=0.4.3"
sha2 = "=0.10.9"
subtle = "=2.6.1"
serde = { version = "1", features = ["derive"] }
serde_json = "=1.0.154"
serde_yaml = "=0.9.34"
xmltree = { version = "=0.12.0", features = ["attribute-sorted"] }
x509-parser = { version = "=0.18.1", features = ["verify"] }
uuid = { version = "=1.29.0", features = ["v4"] }
tokio = { version = "1", features = ["full"] }
futures-util = "0.3"
reqwest = { version = "=0.12.28", default-features = false, features = ["rustls-tls", "stream", "json"] }
rustls = { version = "0.23", default-features = false, features = ["ring", "std"] }
zip = { version = "=9.2.2", default-features = false, features = ["deflate"] }
rand = "=0.10.3"
bollard = "=0.21.1"
tonic = { version = "=0.14.9", features = ["tls-ring"] }
tracing = "0.1"
tracing-subscriber = { version = "0.3", features = ["env-filter"] }
dotenvy = "0.15"
libc = "0.2"
tokio-stream = "0.1"
aws-config = "1"
aws-credential-types = "1"
aws-sdk-s3 = "1"
