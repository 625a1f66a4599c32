[package]
name = "cue"
version = "0.1.0"
edition = "2021"
publish = false

[dependencies]
indexmap = { version = "2", features = ["serde"] }
serde = { version = "1", features = ["derive"] }
serde_json = "1"
tiny_http = "0.12"
eframe = { version = "*", default-features = false, features = ["glow", "default_fonts", "x11"] }
egui_extras = { version = "*", default-features = false, features = ["image"] }
image = { version = "*", default-features = false, features = ["png"] }
log = "0.4"
mimalloc = "*"
