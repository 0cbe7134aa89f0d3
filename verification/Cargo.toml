[package]
name = "protobuf_interchange"
version = "0.1.0"
edition = "2021"
publish = false

[dependencies]
failure = "0.1"
ordered-float = "1.0"
protobuf = "2.8"
protoc = "2.8"
serde = "1.0"
serde-protobuf = "0.8"
serde-value = "0.6"
