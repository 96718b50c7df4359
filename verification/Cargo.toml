[package]
name = "colorcycle"
version = "0.1.0"
edition = "2021"
publish = false

[dependencies]
argparse = "0.2"
chrono = "0.4"
sdl2 = "*"
serde = { version = "1", features = ["derive"] }
serde_json = "1"
