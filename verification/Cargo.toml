[package]
name = "lightshow"
version = "0.1.0"
edition = "2021"
publish = false

[dependencies]
image = "0.25"
log = "0.4"
rayon = "1"
regex = "1"
reqwest = { version = "0.12", default-features = false, features = ["blocking", "json"] }
serde = { version = "1", features = ["derive"] }
serde_json = "1"
simplelog = "0.12"
toml = "0.8"
