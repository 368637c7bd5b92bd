[package]
name = "kinesis_consumer"
version = "0.1.0"
edition = "2021"
publish = false

[dependencies]
async-trait = "0.1"
bytes = "1"
dynomite = "*"
futures = "0.3"
futures-retry = "0.6"
rand = "0.8"
rusoto_core = "*"
rusoto_kinesis = "*"
tokio = { version = "1", features = ["macros", "rt-multi-thread", "sync", "time"] }
