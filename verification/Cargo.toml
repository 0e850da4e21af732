[package]
name = "beepee"
version = "0.1.0"
edition = "2021"
publish = false

[dependencies]
chrono = { version = "0.4", features = ["serde"] }
env_logger = "0.10"
form_urlencoded = "1"
http = "0.2"
hyper = { version = "0.14", features = ["full"] }
log = "0.4"
num-rational = { version = "0.4", default-features = false, features = ["std", "serde"] }
num-traits = "0.2"
once_cell = "1"
regex = "1"
serde = { version = "1", features = ["derive"] }
serde_json = "1"
tera = "1"
tokio = { version = "1", features = ["full"] }
tokio-postgres = { version = "0.7", features = ["with-chrono-0_4"] }
toml = "0.5"
url = "2"
