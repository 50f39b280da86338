[package]
name = "bf_jit"
version = "0.1.0"
edition = "2021"
publish = false

[dependencies]
console_error_panic_hook = "0.1"
enum_dispatch = "0.3"
futures = "0.3"
js-sys = "0.3"
wasm-bindgen = "0.2"
