[package]
name = "necrometer"
version = "0.4.0"
edition = "2021"
publish = false

[dependencies]
rustls = { version = "0.23", default-features = false, features = ["ring", "std", "tls12"] }
webpki-roots = "0.26"
wasm-bindgen = "0.2"
