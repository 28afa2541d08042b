[package]
name = "ml_life_killer"
version = "0.1.0"
edition = "2021"
publish = false

[dependencies]
rand = "=0.9.5"
base64 = "=0.22.1"
rayon = "=1.12.0"
serde = { version = "=1.0.229", features = ["derive"] }
serde_json = "=1.0.154"
rmp-serde = "=1.3.1"
anyhow = "=1.0.104"
chrono = "=0.4.45"
colored = "=2.2.0"
strum = { version = "=0.26.3", features = ["derive"] }
winit = { version = "0.30", default-features = false, features = ["x11", "rwh_06"] }
pixels = "*"
spin_sleep = "1"
