[package]
name = "wasm_bridge"
version = "0.1.0"
edition = "2021"
publish = false

[dependencies]
heck = "0.5"
js-sys = "0.3"
wasm-bindgen = "0.2"
