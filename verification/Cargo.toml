[package]
name = "tf_demo_parser"
version = "0.1.0"
edition = "2021"
publish = false

[dependencies]
bitbuffer = "*"
steamid-ng = "*"
serde = { version = "1", features = ["derive"] }
serde_json = "1"
js-sys = "*"
wasm-bindgen = "*"
serde-wasm-bindgen = "*"
hound = "*"
opus = "*"
main_error = "*"
