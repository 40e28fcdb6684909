[package]
name = "map_drawer"
version = "0.1.0"
edition = "2021"
publish = false

[dependencies]
roxmltree = "*"
svgtypes = "*"
wasm-bindgen = "*"
console_error_panic_hook = "*"
web-sys = { version = "*", features = ["CanvasRenderingContext2d", "HtmlCanvasElement", "console"] }
