[package]
name = "hermesmq_node"
version = "0.1.0"
edition = "2021"
publish = false

[dependencies]
hermesmq-proto = "=0.4.1"
napi = { version = "=3.16.1", features = ["napi8", "async"] }
napi-derive = "=3.7.0"
prost = "=0.13.5"
tokio = { version = "=1.54.1", features = ["io-util", "net", "rt", "sync", "time"] }
