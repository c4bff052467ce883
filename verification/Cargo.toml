[package]
name = "thumbor"
version = "0.1.0"
edition = "2021"
publish = false

[dependencies]
anyhow = "1"
axum = "0.4"
base64 = "0.13"
bytes = "1"
clap = { version = "3", features = ["derive"] }
colored = "2"
image = "0.24"
jsonxf = "1"
lru = "0.8"
mime = "0.3"
percent-encoding = "2"
photon-rs = "0.3"
reqwest = { version = "0.11", features = ["json"] }
serde = { version = "1", features = ["derive"] }
tokio = { version = "1", features = ["full"] }
tower = "0.4"
tracing = "0.1"
tracing-subscriber = "0.3"

[dev-dependencies]
prost = "0.11"
