[package]
name = "terrarust"
version = "0.1.0"
edition = "2021"
publish = false

[dependencies]
twox-hash = "1"
wasm-game-lib = "=0.0.0-do-not-use"
wasm-bindgen = "0.2"
web-sys = { version = "0.3", features = ["Window", "Crypto", "CanvasRenderingContext2d", "CanvasGradient", "HtmlImageElement"] }
futures = "0.3"
console_error_panic_hook = "0.1"
