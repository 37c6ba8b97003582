[package]
name = "fixed_analytics"
version = "0.1.0"
edition = "2021"
publish = false

[dependencies]
fixed = "=1.31.0"
typenum = "=1.20.1"
comfy-table = "*"
serde = { version = "*", features = ["derive"] }
serde_json = "*"
rayon = "*"
