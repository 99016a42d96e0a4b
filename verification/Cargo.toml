[package]
name = "dessa"
version = "0.1.0"
edition = "2021"
publish = false

[dependencies]
image = { version = "0.23", default-features = false, features = ["png"] }
base64 = "0.13"
chrono = "0.4"
env_logger = "*"
lazy_static = "1"
log = "0.4"
log4rs = "1"
reqwest = { version = "0.11", features = ["blocking", "json"] }
rustcord = "*"
scrap = "0.5"
serde = { version = "1", features = ["derive"] }
serde_json = "1"
winapi = { version = "0.3", features = ["minwindef", "ntdef"] }
ws = "0.9"
