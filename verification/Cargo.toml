[package]
name = "verse"
version = "0.1.0"
edition = "2021"
publish = false

[dependencies]
serde = { version = "=1.0.229", features = ["derive"] }
serde_json = "=1.0.154"
clap = "=4.6.7"
csv = "=1.4.0"
anyhow = "=1.0.104"
tracing = "=0.1.44"
tracing-subscriber = { version = "=0.3.23", features = ["env-filter"] }
ndarray = "=0.16.1"
reqwest = { version = "=0.12.28", default-features = false, features = ["blocking", "json", "multipart"] }
risc0-zkvm = { version = "=1.2.6", default-features = false, features = ["client"] }
ort = { version = "=2.0.0-rc.10", default-features = false, features = ["ndarray", "std"] }
