[package]
name = "m7s"
version = "0.1.0"
edition = "2021"
publish = false

[dependencies]
ratatui = "*"
yaml_parser = "*"
clap = { version = "*", features = ["derive"] }
log = "*"
env_logger = "*"
yaml-rust2 = "*"
thiserror = "*"
