[package]
name = "hashcode"
version = "0.1.0"
edition = "2021"
publish = false

[dependencies]
bit-set = "0.5"
rand = "0.7"
serde_json = "1"
threadpool = "1"
env_logger = { version = "0.9", default-features = false }
