[package]
name = "template_cli"
version = "0.3.0"
edition = "2021"
publish = false

[dependencies]
chrono = "0.4"
clap = { version = "4", features = ["derive"] }
env_logger = "0.10"
hcl-rs = "*"
itertools = "0.11"
log = "0.4"
regex = "1"
serde_json = "1"
serde_yaml = "0.9"
