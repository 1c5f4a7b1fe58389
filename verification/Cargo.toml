[package]
name = "trast"
version = "0.1.0"
edition = "2021"
publish = false

[dependencies]
anyhow = "*"
cached-path = "*"
dirs = "*"
dotenv = "*"
futures = "*"
rayon = "*"
serde = { version = "*", features = ["derive"] }
serde_json = "*"
thiserror = "*"
tokenizers = "*"
tokio = { version = "*", features = ["full"] }
tokio-rayon = "*"
tracing = "*"
tract-onnx = "*"
