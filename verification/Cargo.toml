[package]
name = "realm_agent"
version = "0.1.0"
edition = "2021"
publish = false

[dependencies]
sha2 = "=0.10.9"
hex = "=0.4.3"
hmac = "=0.12.1"
base64 = "=0.22.1"
serde = { version = "=1.0.229", features = ["derive"] }
serde_json = "=1.0.154"
cron = "=0.12.1"
chrono = "=0.4.45"
time = { version = "=0.3.55", features = ["formatting"] }
dirs = "=5.0.1"
uuid = { version = "=1.29.0", features = ["v4"] }
rand = "0.8"
lru = "0.7"
mime_guess = "2"
clap = { version = "4", features = ["derive"] }
toml = "0.8"
zip = { version = "0.6", default-features = false, features = ["deflate"] }
