[package]
name = "chromecast_sink"
version = "0.1.0"
edition = "2021"
publish = false

[dependencies]
aes = "0.8"
anyhow = "1"
clap = { version = "4", features = ["derive"] }
ctr = "0.9"
ctrlc = { version = "3", features = ["termination"] }
env_logger = "0.11"
hex = "0.4"
libc = "0.2"
log = "0.4"
mdns-sd = "0.13"
native-tls = "0.2"
opus = "0.3"
pipewire = "0.8"
rand = "0.9"
rustls = { version = "0.23", default-features = false, features = ["logging", "ring", "std", "tls12"] }
serde_json = "1"
