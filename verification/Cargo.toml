[package]
name = "protoc_rust"
version = "0.1.0"
edition = "2021"
publish = false

[dependencies]
prost = "0.5"
prost-build = "0.5"
prost-types = "0.5"
tower-grpc-build = "0.1"
