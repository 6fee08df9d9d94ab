[package]
name = "text_transform"
version = "0.1.0"
edition = "2021"
publish = false

[dependencies]
base64 = "0.22"
regex = "1"
urlencoding = "2"
serde = { version = "1", features = ["derive"] }
serde_json = "1"
eframe = { version = "0.31", default-features = false, features = ["glow", "x11"] }
egui = "0.31"
egui-snarl = { version = "0.7", features = ["serde"] }
