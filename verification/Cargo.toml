[package]
name = "carton_snapshot"
version = "0.1.0"
edition = "2021"
publish = false

[dependencies]
nom = "7"
serde = { version = "1", features = ["derive"] }
