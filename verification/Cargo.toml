[package]
name = "mddux"
version = "0.1.0"
edition = "2021"
publish = false

[dependencies]
anyhow = "1"
base64 = "0.22"
clap = { version = "4", features = ["derive"] }
comrak = "*"
env_logger = "*"
log = "0.4"
rexpect = "*"
serde = { version = "1", features = ["derive"] }
serde_json = "1"
strfmt = "*"
tempfile = "3"
twox-hash = "1.6"
yaml-rust = "0.4"
