[package]
name = "enyan_core"
version = "0.1.0"
edition = "2021"
publish = false

[dependencies]
anyhow = "=1.0.104"
candle-core = "=0.11.0"
candle-nn = "=0.11.0"
candle-transformers = "=0.11.0"
hound = "=3.5.1"
log = "=0.4.34"
regex = "=1.13.1"
serde_json = "=1.0.151"
symphonia = { version = "=0.5.5", features = ["mp3"] }
tts = "=0.26.3"
