[package]
name = "ppt_extract"
version = "0.1.0"
edition = "2021"
publish = false

[dependencies]
anyhow = "1"
cfb = "*"
clap = { version = "4", features = ["derive"] }
console_error_panic_hook = "0.1"
env_logger = "0.11"
log = "0.4"
quick-xml = "0.31"
regex = "1"
serde = { version = "1", features = ["derive"] }
serde-wasm-bindgen = "0.6"
thiserror = "1"
wasm-bindgen = "0.2"
zip = { version = "0.6", default-features = false, features = ["deflate"] }
