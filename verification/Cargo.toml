[package]
name = "matrix_engine"
version = "0.1.0"
edition = "2021"
publish = false

[dependencies]
rustc_apfloat = "0.2"
yew = { version = "0.21", features = ["csr"] }
gloo = "*"
wasm-bindgen = "0.2"
web-sys = { version = "0.3", features = ["Event", "EventTarget", "HtmlInputElement", "SubmitEvent"] }
