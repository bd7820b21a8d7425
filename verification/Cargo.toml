[package]
name = "shutl"
version = "0.1.0"
edition = "2021"
publish = false

[dependencies]
clap = { version = "4.5", features = ["cargo", "string", "unstable-ext"] }
clap_complete = { version = "4.5", features = ["unstable-dynamic"] }
dirs = "5"
env_logger = "0.11"
is_executable = "1"
log = "0.4"
shellexpand = "3"
