[package]
name = "lazy_expr"
version = "0.1.0"
edition = "2021"
publish = false

[dependencies]
polars = { version = "*", default-features = false, features = ["lazy"] }
wasm-bindgen = "*"
js-sys = "*"
serde-wasm-bindgen = "*"
