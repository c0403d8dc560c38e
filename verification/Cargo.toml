[package]
name = "uzi_pool"
version = "0.1.0"
edition = "2021"
publish = false

[dependencies]
colored = "*"
env_logger = "*"
hex = "*"
log = "*"
rust-randomx = "*"
serde = { version = "*", features = ["derive"] }
serde_json = "*"
structopt = "*"
tiny_http = "*"
ureq = "*"
