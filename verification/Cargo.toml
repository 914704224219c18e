[package]
name = "urlshortener"
version = "0.1.0"
edition = "2021"
publish = false

[dependencies]
url = "*"
serde = { version = "1", features = ["derive"] }
serde_json = "1"
iron = "0.6"
router = "0.6"
mount = "0.4"
bodyparser = "0.8"
unicase = "1"
hyper = "0.10"
