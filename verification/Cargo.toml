[package]
name = "envy_linux"
version = "0.1.0"
edition = "2021"
publish = false

[dependencies]
serde = { version = "=1.0.229", features = ["derive"] }
serde_json = { version = "=1.0.154", features = ["preserve_order"] }
chrono = "=0.4.45"
dirs = "=6.0.0"
tiny-skia = "=0.11.4"
ksni = { version = "=0.3.7", features = ["blocking"] }

[dev-dependencies]
url = "=2.5.8"
