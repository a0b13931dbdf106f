[package]
name = "knowledge"
version = "0.0.4"
edition = "2021"
publish = false

[dependencies]
actix-cors = "0.5"
actix-web = "3"
async-std = { version = "1", features = ["unstable"] }
base64 = "0.13"
clap = "3"
dashmap = "4"
lazy_static = "1"
log = "0.4"
notify = "4"
path_abs = "0.5"
rand = "0.7"
serde = { version = "1", features = ["derive"] }
simple_logger = "1"
webbrowser = "0.5"
yaml-rust = "0.4"
