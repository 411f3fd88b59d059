[package]
name = "mybar"
version = "0.1.0"
edition = "2021"
publish = false

[dependencies]
chrono = "0.4"
tokio = { version = "1", features = ["full"] }
sysinfo = "*"
battery = "0.7"
winit = "0.30"
skia-safe = { version = "*", features = ["textlayout", "metal"] }
raw-window-handle = "0.6"
objc2 = "0.6"
objc2-app-kit = "0.3"
objc2-foundation = "0.3"
objc2-core-foundation = "0.3"
objc2-core-wlan = "0.3"
objc2-metal = "0.3"
objc2-quartz-core = "0.3"
serde_json = "1"
