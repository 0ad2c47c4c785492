[package]
name = "diaphane"
version = "0.1.0"
edition = "2021"
publish = false

[dependencies]
blade-egui = "=0.9.0"
blade-graphics = "=0.9.0"
blade-macros = "=0.3.0"
bytemuck = { version = "=1.25.2", features = ["derive"] }
egui = { version = "=0.34.3", default-features = false, features = ["default_fonts"] }
egui-winit = { version = "=0.34.3", default-features = false }
log = "=0.4.35"
png = "=0.18.1"
ron = "=0.12.3"
serde = { version = "=1.0.229", features = ["derive"] }
winit = "=0.30.13"
