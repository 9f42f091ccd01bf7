[package]
name = "sweeper"
version = "0.1.0"
edition = "2021"
publish = false

[dependencies]
walkdir = "*"
chrono = "*"
dirs = "*"
bytesize = "*"
serde = { version = "*", features = ["derive"] }
serde_json = "*"
trash = "*"

[dev-dependencies]
tempfile = "*"
