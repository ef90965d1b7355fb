[package]
name = "volts"
version = "0.1.0"
edition = "2021"
publish = false

[dependencies]
anyhow = "=1.0.104"
axum = { version = "=0.6.20", features = ["headers"] }
chrono = "=0.4.45"
clap = { version = "=4.6.7", features = ["derive"] }
diesel = { version = "=2.1.6", default-features = false, features = ["postgres_backend", "chrono"] }
diesel-async = { version = "=0.3.2", features = ["postgres", "deadpool"] }
dotenvy = "=0.15.7"
flate2 = "=1.1.10"
futures = "=0.3.34"
gloo-net = { version = "0.2", default-features = false, features = ["http", "json"] }
headers = "=0.3.9"
keyring = "=1.2.1"
lapce-rpc = "=0.2.1"
oauth2 = "=4.4.2"
pulldown-cmark = { version = "=0.9.6", default-features = false }
rand = "=0.8.8"
reqwest = { version = "=0.11.27", default-features = false, features = ["blocking", "json", "rustls-tls"] }
rust-s3 = { version = "=0.32.3", default-features = false, features = ["tokio-rustls-tls"] }
semver = "=1.0.28"
serde = { version = "=1.0.229", features = ["derive"] }
sycamore = { version = "0.8", features = ["suspense"] }
sycamore-router = "0.8"
sha2 = "=0.10.9"
tar = "=0.4.46"
tempfile = "=3.27.0"
tokio = { version = "=1.54.1", features = ["full"] }
tokio-util = { version = "=0.7.20", features = ["io"] }
toml_edit = { version = "=0.14.4", features = ["easy"] }
wasm-bindgen = "0.2"
web-sys = { version = "0.3", features = ["Event", "History", "HtmlElement", "HtmlImageElement", "HtmlInputElement", "KeyboardEvent", "Location", "Window", "console"] }
