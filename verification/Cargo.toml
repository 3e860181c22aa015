[package]
name = "game_of_life"
version = "0.1.0"
edition = "2021"
publish = false

[dependencies]
fixedbitset = "0.4"
js-sys = "0.3"
wasm-bindgen = "0.2"
wee_alloc = "0.4"
