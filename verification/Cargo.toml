[package]
name = "summon_bridge"
version = "0.1.0"
edition = "2021"
publish = false

[dependencies]
serde = "*"
serde_json = "*"
wasm-bindgen = "*"
js-sys = "*"
serde-wasm-bindgen = "*"
console_error_panic_hook = "*"
