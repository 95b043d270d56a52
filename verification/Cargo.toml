[package]
name = "orbit"
version = "0.1.0"
edition = "2021"
publish = false

[dependencies]
nucleo-matcher = "=0.3.1"
plist = "=1.10.3"
png = "=0.17.16"
crossbeam-channel = "=0.5.17"
eframe = { version = "*", default-features = false, features = ["default_fonts", "glow", "x11"] }
egui_taffy = "*"
global-hotkey = "*"
tray-icon = { version = "*", default-features = false }
file_icon_provider = "*"
objc2 = "*"
objc2-app-kit = "*"
objc2-service-management = "*"
winit = { version = "*", default-features = false }
