[package]
name = "micronet"
version = "0.1.0"
edition = "2021"
publish = false

[dependencies]
dhcproto = "0.15"
socket2 = { version = "0.5", features = ["all"] }
nix = { version = "0.29", features = ["signal", "process"] }
ipnet = "2"
serde = { version = "1", features = ["derive"] }
serde_json = "1"
clap = { version = "4", features = ["derive"] }
env_logger = "0.11"
log = "0.4"
signal-hook = "0.3"
