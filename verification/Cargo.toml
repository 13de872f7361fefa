[package]
name = "offset_codegen"
version = "0.1.0"
edition = "2021"
publish = false

[dependencies]
heck = "0.5"
serde_json = "1"
memflow = "0.2"
