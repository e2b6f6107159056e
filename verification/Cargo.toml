[package]
name = "battle_logic"
version = "0.1.0"
edition = "2021"
publish = false

[dependencies]
chrono = "0.4"
serde_json = "1"
egui = { version = "0.27", default-features = false }
