[package]
name = "backup"
version = "0.1.0"
edition = "2021"
publish = false

[dependencies]
crc = "=1.8.1"
hex = "=0.4.3"
futures = "=0.3.34"
protobuf = { version = "=2.28.0", features = ["with-bytes"] }
raft = "=0.6.0"

[dev-dependencies]
rand = "=0.8.8"
