[package]
name = "tide-testing"
version = "0.1.0"
edition = "2021"
publish = false

[dependencies]
surf = { version = "2", default-features = false }
tide = { version = "0.16", default-features = false }
async-std = "1"
serde = "1"
serde_json = "1"
