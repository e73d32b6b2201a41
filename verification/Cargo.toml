[package]
name = "hostctl"
version = "0.1.0"
edition = "2021"
publish = false

[dependencies]
regex = "1"
clap = { version = "4", features = ["derive"] }
clap_complete = "4"
cli-table = "0.4"
ctrlc = "3"
env_logger = "0.11"
inline_colorization = "0.1"
inquire = "0.7"
libc = "0.2"
serde_json = "1"
tempfile = "3"
