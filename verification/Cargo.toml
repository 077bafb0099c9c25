[package]
name = "tetris"
version = "0.1.0"
edition = "2021"
publish = false

[dependencies]
wasm-bindgen = "*"
js-sys = "*"
web-sys = { version = "*", features = ["Window", "Document", "Element", "HtmlElement", "Node", "EventTarget", "HtmlCanvasElement", "CanvasRenderingContext2d", "KeyboardEvent"] }
