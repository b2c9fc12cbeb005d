[package]
name = "jackdaw"
version = "0.1.0"
edition = "2021"
publish = false

[dependencies]
arboard = "=3.7.0"
bevy = { version = "=0.19.1", default-features = false, features = ["std"] }
dunce = "=1.0.5"
serde = "=1.0.229"
serde_json = "=1.0.154"
