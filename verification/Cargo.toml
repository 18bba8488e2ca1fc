[package]
name = "componentize_py"
version = "0.1.0"
edition = "2021"
publish = false

[dependencies]
anyhow = "=1.0.104"
async-trait = "=0.1.92"
cap-std = "=2.0.2"
futures = "=0.3.34"
heck = { version = "=0.4.1", features = ["unicode"] }
indexmap = "=2.14.2"
tar = "=0.4.46"
tempfile = "=3.27.0"
wasm-encoder = "=0.32.0"
wasmparser = "=0.112.0"
wasmtime = { version = "=12.0.2", features = ["component-model", "async"] }
wasmtime-wasi = "=12.0.2"
wit-component = "=0.14.7"
wit-parser = "=0.11.3"
zstd = "=0.12.4"

[dev-dependencies]
wat = "=1.263.0"
