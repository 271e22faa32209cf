[package]
name = "wasmedge_async"
version = "0.1.0"
edition = "2021"
publish = false

[dependencies]
futures = "0.3"
scoped-tls = "1"
wasmedge_wasi_socket = "*"
