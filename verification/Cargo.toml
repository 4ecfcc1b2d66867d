[package]
name = "ais-forwarder"
version = "0.1.0"
edition = "2021"
publish = false

[dependencies]
chrono = "0.4"
clap = { version = "4", features = ["derive"] }
clap-verbosity-flag = "*"
config = "*"
env_logger = "*"
log = "0.4"
nmea-parser = "*"
sled = "0.34"
socket2 = "*"
time = "0.3"
