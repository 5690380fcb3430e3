[package]
name = "raft_driver"
version = "0.1.0"
edition = "2021"
publish = false

[dependencies]
raft = "0.4.3"
protobuf = "2"
bincode = "1"
serde = { version = "1", features = ["derive"] }
grpcio = "0.4"
