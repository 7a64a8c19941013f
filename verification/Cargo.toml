[package]
name = "canvas_diagram"
version = "0.1.0"
edition = "2021"
publish = false

[dependencies]
regex = "1"
egui = { version = "0.33", default-features = false }
serde_json = "1"
web-time = "1"
futures-lite = "2"
bevy = { version = "0.18", default-features = false, features = ["std", "multi_threaded"] }
