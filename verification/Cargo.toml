[package]
name = "easy_rpc"
version = "0.1.0"
edition = "2021"
publish = false

[dependencies]
async-trait = "0.1"
axum = { version = "0.8", default-features = false, features = ["http1", "tokio"] }
bytes = "1"
flate2 = "1"
futures = "0.3"
http = "1"
http-body-util = "0.1"
hyper = { version = "1", features = ["client", "http1", "http2", "server"] }
hyper-util = { version = "0.1", features = ["http1", "http2", "server", "server-auto", "tokio"] }
prost = "0.14"
prost-types = "0.14"
reqwest = { version = "0.12", default-features = false, features = ["stream"] }
serde_json = "1"
tokio = { version = "1", features = ["full"] }
tokio-stream = "0.1"
