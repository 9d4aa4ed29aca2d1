[package]
name = "no_eagles"
version = "0.1.0"
edition = "2021"
publish = false

[dependencies]
leptos = { version = "=0.7.8", features = ["csr"] }
serde = { version = "=1.0.229", features = ["derive"] }
serde-wasm-bindgen = "=0.6.5"
wasm-bindgen = "=0.2.130"
wasm-bindgen-futures = "=0.4.80"
thiserror = "=2.0.21"
