[package]
name = "pos_tagger"
version = "0.1.0"
edition = "2021"
publish = false

[dependencies]
jni = "*"
serde = { version = "*", features = ["derive"] }
serde_json = "*"
