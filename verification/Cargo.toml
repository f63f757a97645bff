[package]
name = "egui_widgets"
version = "0.1.0"
edition = "2021"
publish = false

[dependencies]
chrono = "*"
crossbeam-channel = "*"
egui = "*"
parking_lot = "*"
serde = { version = "*", features = ["derive"] }
tracing = "*"
tracing-subscriber = "*"
