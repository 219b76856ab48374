[package]
name = "couch_bridge"
version = "0.1.0"
edition = "2021"
publish = false

[dependencies]
couch_rs = "*"
serde_json = "*"
tokio = { version = "*", default-features = false, features = ["rt"] }
