[package]
name = "dir_browser"
version = "0.1.0"
edition = "2021"
publish = false

[dependencies]
env_logger = "0.11"
human_bytes = "0.4"
log = "0.4"
ratatui = "0.29"
unix_mode = "0.1"
users = "0.11"
