[package]
name = "transfer"
version = "0.1.0"
edition = "2021"
publish = false

[dependencies]
appendbuf = "*"
http2parse = "*"
eventual = "*"
mio = { version = "*", features = ["net", "os-poll"] }
