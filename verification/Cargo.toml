[package]
name = "state_engine"
version = "0.1.0"
edition = "2021"
publish = false

[dependencies]
blake2 = "0.10"
grpc = "0.6"
log = "0.4"
