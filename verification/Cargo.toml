[package]
name = "eddy"
version = "0.1.0"
edition = "2021"
publish = false

[dependencies]
ropey = "1"
unicode-segmentation = "1"
toml = "0.5"
serde = { version = "1", features = ["derive"] }
anyhow = "1"
ssh2 = "0.9"
