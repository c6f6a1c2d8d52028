[package]
name = "snes_input_display"
version = "0.1.0"
edition = "2021"
publish = false

[dependencies]
serde_json = "*"
quick-xml = "*"
serde = { version = "*", features = ["derive"] }
toml = "*"
dirs = "*"
rusb2snes = "*"
