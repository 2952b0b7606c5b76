[package]
name = "indexeddb_kv"
version = "0.1.0"
edition = "2021"
publish = false

[dependencies]
async-once-cell = "=0.5.4"
futures = "=0.3.34"
indexed-db = "=0.4.2"
js-sys = "=0.3.106"
opendal = { version = "=0.54.1", default-features = false }
send_wrapper = "=0.6.0"
serde = { version = "=1.0.229", features = ["derive"] }
serde_bytes = "=0.11.19"
serde-wasm-bindgen = "=0.6.5"
