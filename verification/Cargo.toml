[package]
name = "cargo_devcade"
version = "0.1.0"
edition = "2021"
publish = false

[dependencies]
zip = { version = "0.6", default-features = false, features = ["deflate"] }
image = { version = "0.24", default-features = false, features = ["png"] }
imageproc = { version = "0.23", default-features = false }
rusttype = "0.9"
walkdir = "2"
cargo_metadata = "0.15"
clap = { version = "4", features = ["derive"] }
env_logger = "0.10"
log = "0.4"
webbrowser = "0.8"
