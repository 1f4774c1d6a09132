[package]
name = "romajiagent"
version = "0.1.0"
edition = "2021"
publish = false

[dependencies]
anyhow = "=1.0.104"
arboard = { version = "=3.7.0", default-features = false }
chrono = { version = "=0.4.45", features = ["serde"] }
dirs = "=7.0.0"
encoding_rs = "=0.8.44"
llama-cpp-2 = { version = "=0.1.140", default-features = false }
rusqlite = { version = "=0.41.1", features = ["bundled"] }
serde = { version = "=1.0.229", features = ["derive"] }
serde_json = "=1.0.154"
tokio = { version = "=1.54.1", features = ["rt-multi-thread"] }
toml = "=1.1.8"
uuid = { version = "=1.29.0", features = ["v4"] }
wana_kana = "=5.0.0"
