[package]
name = "qwen3_tts"
version = "0.1.0"
edition = "2021"
publish = false

[dependencies]
anyhow = "1"
candle-core = "0.9"
candle-nn = "0.9"
serde = { version = "1", features = ["derive"] }
tracing = "0.1"
