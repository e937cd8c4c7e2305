[package]
name = "wg-subscriber"
version = "0.1.0"
edition = "2021"
publish = false

[dependencies]
anyhow = "1"
blake3 = { version = "1", features = ["pure"] }
env_logger = "0.11"
if-addrs = "0.13"
ipnet = "2"
log = "0.4"
rand = "0.8"
rumqttc = "0.24"
rustls = "0.22"
rustls-native-certs = "0.6"
rustls-pemfile = "1"
serde = { version = "1", features = ["derive"] }
serde_json = "1"
shlex = "1"
signal-hook = "0.3"
tempfile = "3"
zstd = "0.13"
