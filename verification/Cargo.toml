[package]
name = "rubik_solver"
version = "0.1.0"
edition = "2021"
publish = false

[dependencies]
kewb = "=0.4.3"
serde = { version = "=1.0.229", features = ["derive"] }
glam = "*"
