[package]
name = "ddlt"
version = "0.1.0"
edition = "2021"
publish = false

[dependencies]
eframe = { version = "*", default-features = false, features = ["glow"] }
egui = "*"
egui_extras = "*"
odbc-api = "*"

[dev-dependencies]
statrs = "*"
