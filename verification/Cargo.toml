[package]
name = "slippy_map"
version = "0.1.0"
edition = "2021"
publish = false

[dependencies]
egui = "0.27"
egui_extras = { version = "0.27", features = ["image"] }
reqwest = { version = "0.12", default-features = false, features = ["blocking", "rustls-tls"] }

[dev-dependencies]
image = "0.24"
