[package]
name = "shard_sink"
version = "0.1.0"
edition = "2021"
publish = false

[dependencies]
anyhow = "1"
chrono = "0.4"
deepsize = "0.2"
etcd-client = "0.12"
futures = "0.3"
local-ip-address = "*"
scylla = "0.13"
thiserror = "1"
tokio = { version = "1", features = ["sync", "rt", "rt-multi-thread", "time", "macros"] }
tracing = "0.1"
uuid = { version = "1", features = ["v4"] }
