[package]
name = "fjall_js"
version = "0.3.2"
edition = "2021"
publish = false

[dependencies]
fjall = "2"
napi = "2"
napi-derive = "2"

[dev-dependencies]
tempfile = "3"
