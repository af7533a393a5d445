[package]
name = "vpass"
version = "0.1.0"
edition = "2021"
publish = false

[dependencies]
base64 = "=0.13.1"
bincode = "=1.3.3"
chrono = { version = "=0.4.45", features = ["serde"] }
clipboard = "=0.5.0"
crc = "=1.8.1"
dirs = "=2.0.2"
flate2 = "=1.0.35"
log = "=0.4.34"
pretty_env_logger = "=0.4.0"
reqwest = "=0.9.24"
rpassword = "=5.0.1"
serde = { version = "=1.0.229", features = ["derive"] }
serde_json = "=1.0.154"
sodiumoxide = "0.2"
structopt = "=0.3.7"
strum = "=0.28.0"
strum_macros = "=0.28.0"
uuid = { version = "=1.29.0", features = ["v4", "serde"] }
wsl = "=0.1.0"
