[package]
name = "mft_timeline"
version = "0.1.0"
edition = "2021"
publish = false

[dependencies]
mft = "=0.7.0"
jiff = "=0.2.39"
num-traits = "=0.2.19"
serde = { version = "=1.0.229", features = ["derive"] }
serde_json = "=1.0.154"
glob = "=0.3.4"
env_logger = "=0.11.11"
vgi = "=0.11.0"
vgi-rpc = "=0.8.0"
arrow-array = "=59.3.2"
arrow-buffer = "=59.3.2"
arrow-schema = "=59.3.2"
