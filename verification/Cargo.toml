[package]
name = "scoresynth"
version = "0.1.0"
edition = "2021"
publish = false

[dependencies]
ghakuf = "*"
hound = "*"
serde = "*"
serde_derive = "*"
serde_json = "*"
