[package]
name = "httpcheck"
version = "0.1.0"
edition = "2021"
publish = false

[dependencies]
http = "=1.5.0"
serde_json = "=1.0.151"
hyper = { version = "=1.12.0", features = ["client", "http1"] }
hyper-util = { version = "0.1", features = ["tokio"] }
http-body-util = "=0.1.5"
bytes = "=1.12.1"
tokio = { version = "=1.53.2", features = ["full"] }

[dev-dependencies]
assert-json-diff = "=2.0.2"
