[package]
name = "route_ratelimit"
version = "0.1.0"
edition = "2021"
publish = false

[dependencies]
async-trait = "*"
dashmap = "*"
http = "*"
rand = "*"
reqwest = { version = "*", default-features = false }
reqwest-middleware = "*"
thiserror = "*"
tokio = { version = "*", features = ["time"] }
tracing = "*"

[dev-dependencies]
url = "*"
