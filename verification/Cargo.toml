[package]
name = "toroidal_life"
version = "0.1.0"
edition = "2021"
publish = false

[dependencies]
nalgebra = "*"
yew = "=0.18.0"
wasm-bindgen = "0.2"
web-sys = { version = "0.3", features = ["CanvasRenderingContext2d", "HtmlCanvasElement", "Window", "MouseEvent", "WheelEvent"] }
gloo-timers = "0.2"
weblog = "*"
