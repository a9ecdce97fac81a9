[package]
name = "textstats"
version = "0.1.0"
edition = "2021"
publish = false

[dependencies]
regex = "1"
csv = "1"
serde = { version = "1", features = ["derive"] }
serde_json = "1"
leptos = { version = "0.6", features = ["csr"] }
gloo = { version = "0.11", default-features = false, features = ["file"] }
wasm-bindgen = "0.2"
web-sys = { version = "0.3", features = ["Document", "DomTokenList", "Element", "HtmlElement", "Node", "Storage", "Window"] }
