[package]
name = "paudle"
version = "0.1.0"
edition = "2021"
publish = false

[dependencies]
chrono = "=0.4.45"
gloo-events = "=0.1.2"
gloo-storage = "=0.2.2"
rand = "=0.8.8"
serde = { version = "=1.0.229", features = ["derive"] }
wasm-bindgen = "=0.2.129"
wasm-bindgen-futures = "=0.4.79"
web-sys = { version = "=0.3.106", features = ["console", "Window", "Document", "Element", "HtmlElement", "Event", "EventTarget", "KeyboardEvent", "MouseEvent", "Navigator", "Clipboard"] }
yew = "=0.19.3"
