[package]
name = "compacto"
version = "1.0.0"
edition = "2021"
publish = false

[dependencies]
serde_json = "1"
seahash = "4"
clap = { version = "3", features = ["derive", "cargo"] }
byte-unit = "4"
