[package]
name = "mc_gradle_builder"
version = "0.1.0"
edition = "2021"
publish = false

[dependencies]
serde_json = "1"
zip = { version = "*", default-features = false, features = ["deflate"] }
