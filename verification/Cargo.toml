[package]
name = "ping6_data"
version = "0.1.0"
edition = "2021"
publish = false

[dependencies]
seahash = "3"
pnet_packet = "*"
ip_network = "*"
clap = "2"
log = "0.4"
env_logger = "*"
libc = "0.2"
serde = { version = "1", features = ["derive"] }
toml = "0.5"
