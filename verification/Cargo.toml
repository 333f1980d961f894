[package]
name = "phonemica"
version = "0.1.0"
edition = "2021"
publish = false

[dependencies]
ureq = "2"
wasm-bindgen = "0.2"
serde_json = "1"
espeak-ng = "*"
