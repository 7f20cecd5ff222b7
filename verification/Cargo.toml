[package]
name = "contemporary_z"
version = "0.1.0"
edition = "2021"
publish = false

[dependencies]
regex = "1"
toml = "*"
home = "*"
rusqlite = { version = "*", features = ["bundled"] }
