[package]
name = "dfrs"
version = "0.1.0"
edition = "2021"
publish = false

[dependencies]
anyhow = "1"
clap = { version = "4", features = ["derive"] }
clap_complete = "4"
colored = "2"
env_logger = "*"
lazy_static = "1"
log = "0.4"
nix = { version = "*", features = ["fs"] }
strum = "*"
strum_macros = "*"
