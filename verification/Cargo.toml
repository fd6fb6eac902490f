[package]
name = "grouphug"
version = "0.1.0"
edition = "2021"
publish = false

[dependencies]
bdk = { version = "0.29", features = ["electrum"] }
chrono = "0.4"
hex = "0.4"
once_cell = "1"
serde = { version = "1", features = ["derive"] }
toml = "0.8"
