[package]
name = "benchbot"
version = "0.1.0"
edition = "2021"
publish = false

[dependencies]
amiquip = "*"
bson = "2"
chrono = "*"
clap = "*"
log = "*"
mongodb = { version = "3", features = ["sync"] }
rustc_version = "*"
serde = { version = "*", features = ["derive"] }
serde_json = "*"
simple_logger = "*"
tempfile = "*"
text_io = "*"
