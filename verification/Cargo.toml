[package]
name = "greet_tasks"
version = "0.1.0"
edition = "2021"
publish = false

[dependencies]
dioxus = "0.6"
serde = { version = "1", features = ["derive"] }
serde-wasm-bindgen = "0.6"
wasm-bindgen = "0.2"
wasm-bindgen-futures = "0.4"
