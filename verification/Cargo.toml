[package]
name = "room_registry"
version = "0.1.0"
edition = "2021"
publish = false

[dependencies]
rand = "0.8"
uuid = { version = "1", features = ["v4"] }
once_cell = "1"
parking_lot = "0.12"
rocket = "0.5"
rocket_dyn_templates = { version = "0.1", features = ["handlebars"] }
