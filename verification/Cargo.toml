[package]
name = "hypertoken_core"
version = "0.1.0"
edition = "2021"
publish = false

[dependencies]
automerge = "0.5"
chrono = "0.4"
console_error_panic_hook = "0.1"
js-sys = "0.3"
rand = "0.8"
rand_chacha = "0.3"
rayon = "1"
serde = { version = "1", features = ["derive"] }
serde_json = "1"
thiserror = "1"
uuid = { version = "1", features = ["v4"] }
wasm-bindgen = "0.2"
