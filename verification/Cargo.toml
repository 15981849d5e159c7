[package]
name = "lightshow"
version = "0.1.0"
edition = "2021"
publish = false

[dependencies]
anyhow = "1"
base64 = "=0.22.1"
bevy = { version = "=0.18.1", default-features = false, features = ["std", "bevy_asset", "bevy_camera", "bevy_color", "bevy_gizmos", "bevy_image", "bevy_light", "bevy_log", "bevy_mesh", "bevy_scene", "bevy_window", "bevy_winit"] }
bevy_egui = { version = "=0.39.1", default-features = false, features = ["default_fonts"] }
console_error_panic_hook = "0.1"
getrandom = "=0.3.4"
gloo-net = { version = "0.6", default-features = false, features = ["http"] }
js-sys = "0.3"
log = "0.4"
rustfft = "=6.4.1"
serde_json = "=1.0.154"
sha2 = "=0.10.9"
wasm-bindgen = "0.2"
wasm-bindgen-futures = "0.4"
web-sys = { version = "0.3", features = ["AudioBuffer", "AudioBufferSourceNode", "AudioContext", "AudioDestinationNode", "AudioNode", "AudioScheduledSourceNode", "BaseAudioContext", "Blob", "Document", "Element", "Event", "EventTarget", "File", "FileList", "History", "HtmlAnchorElement", "HtmlElement", "HtmlInputElement", "Location", "Node", "Storage", "Url", "Window"] }
zip = { version = "=2.6.1", default-features = false }
