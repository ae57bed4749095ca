[package]
name = "annotator_core"
version = "0.1.0"
edition = "2021"
publish = false

[dependencies]
chrono = "*"
serde = { version = "*", features = ["derive"] }
serde_json = "*"
serde_yaml = "*"
toml = "*"
directories = "*"
shellexpand = "*"
image = "*"
imageproc = "*"
rand = "*"
