[package]
name = "conn_info"
version = "0.1.0"
edition = "2021"
publish = false

[dependencies]
actix-utils = "3"
derive_more = { version = "*", features = ["display", "error"] }
log = "0.4"
