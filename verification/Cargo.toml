[package]
name = "physics_sandbox"
version = "0.1.0"
edition = "2021"
publish = false

[dependencies]
nalgebra = "=0.35.0"
rapier3d = "=0.35.3"
salva3d = { version = "=0.10.0", features = ["rapier"] }
serde = { version = "=1.0.229", features = ["derive"] }
serde_json = "=1.0.151"
