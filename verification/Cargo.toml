[package]
name = "chat_hub"
version = "0.1.0"
edition = "2021"
publish = false

[dependencies]
anyhow = "=1.0.104"
clap = { version = "=4.6.7", features = ["derive"] }
futures = "=0.3.34"
js-utils = "=0.1.6"
kodec = { version = "=0.1.0", features = ["binary"] }
mezzenger = "=0.1.4"
mezzenger-websocket = { version = "=0.2.5", features = ["warp"] }
mezzenger-webworker = "=0.1.3"
num-bigint = { version = "=0.4.8", features = ["serde"] }
rustyline-async = "=0.4.9"
serde = { version = "=1.0.229", features = ["derive"] }
tokio = { version = "=1.54.1", features = ["full"] }
tokio-rayon = "=2.1.0"
tokio-tungstenite = "=0.18.0"
tracing = "=0.1.44"
tracing-subscriber = "=0.3.23"
url = "=2.5.8"
warp = "=0.3.7"
wasm-bindgen = "=0.2.129"
wasm-bindgen-futures = "0.4"
web-sys = { version = "=0.3.106", features = ["Document", "Element", "HtmlInputElement", "HtmlTextAreaElement", "KeyboardEvent", "Location", "MouseEvent", "WebSocket", "Window", "Worker"] }
zzrpc = "=0.1.3"

[dev-dependencies]
regex = "=1.13.1"
