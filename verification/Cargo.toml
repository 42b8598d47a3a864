[package]
name = "blobstore_gateway"
version = "0.1.0"
edition = "2021"
publish = false

[dependencies]
serde_json = "*"
wasmbus-rpc = "*"
wasmcloud-interface-blobstore = "*"
wasmcloud-interface-httpserver = "*"
