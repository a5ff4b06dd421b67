[package]
name = "molsim"
version = "0.1.0"
edition = "2021"
publish = false

[dependencies]
wasm-bindgen = "0.2"
web-sys = { version = "0.3", features = ["Window", "Document", "Element", "HtmlCanvasElement"] }
plotters = { version = "0.3", default-features = false, features = ["line_series"] }
plotters-canvas = "0.3"
serde = { version = "1", features = ["derive"] }
serde-wasm-bindgen = "0.6"
