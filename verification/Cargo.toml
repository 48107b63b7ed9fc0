[package]
name = "social_card"
version = "0.1.0"
edition = "2021"
publish = false

[dependencies]
clap = { version = "4", features = ["derive"] }
image = "0.24"
imageproc = "0.23"
indicatif = "0.17"
rayon = "1"
rusttype = "0.9"
serde = { version = "1", features = ["derive"] }
toml = "0.8"
ureq = { version = "2", features = ["json"] }
uuid = { version = "1", features = ["v4"] }
