[package]
name = "inpr_os"
version = "0.1.0"
edition = "2021"
publish = false

[dependencies]
base64 = "*"
rand = "*"
uuid = { version = "*", features = ["v4"] }
async-channel = "*"
dioxus = { version = "*", features = ["web", "router"] }
dioxus-free-icons = { version = "*", features = ["lucide"] }
web-sys = { version = "*", features = ["Window", "Storage", "KeyboardEvent", "FocusEvent", "HtmlAudioElement", "Performance"] }
wasm-bindgen = "*"
gloo-timers = { version = "*", features = ["futures"] }
