[package]
name = "fountain"
version = "0.1.0"
edition = "2021"
publish = false

[dependencies]
gloo = "0.4"
serde = { version = "1", features = ["derive"] }
serde_json = "1"
wasm-bindgen = "0.2"
wasm-logger = "0.2"
web-sys = { version = "0.3", features = ["console", "HtmlElement", "HtmlTextAreaElement", "InputEvent"] }
yew = "0.19"
