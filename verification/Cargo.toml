[package]
name = "mastodon_thread"
version = "0.1.0"
edition = "2021"
publish = false

[dependencies]
anyhow = "1"
console_error_panic_hook = "0.1"
futures-concurrency = "7"
gloo-net = { version = "0.6", default-features = false, features = ["http", "json"] }
leptos = { version = "0.6", features = ["csr"] }
leptos_router = { version = "0.6", features = ["csr"] }
serde = { version = "1", features = ["derive"] }
url = "2"
wasm-logger = "0.2"
