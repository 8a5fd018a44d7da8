[package]
name = "hangman"
version = "0.1.0"
edition = "2021"
publish = false

[dependencies]
encoding = "0.2"
hyper = "0.10"
serde = { version = "1", features = ["derive"] }
serde_json = "1"
docopt = "1"
log = "0.4"
env_logger = "0.10"
