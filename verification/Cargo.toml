[package]
name = "velum"
version = "0.1.0"
edition = "2021"
publish = false

[dependencies]
image = "0.24"
walkdir = "2"
unicode-normalization = "0.1"
pulldown-cmark = "0.9"
axum = { version = "0.6", features = ["multipart"] }
tokio = { version = "1", features = ["full"] }
parking_lot = "0.12"
serde = { version = "1", features = ["derive"] }
serde_json = "1"
toml = "0.7"
uuid = { version = "1", features = ["v4"] }
bcrypt = "0.15"
rpassword = "7"
chrono = "0.4"
log = "0.4"
env_logger = "0.10"
handlebars = "4"
tower-cookies = "0.9"
tower-http = { version = "0.4", features = ["fs", "compression-gzip", "timeout"] }
tower = "0.4"
headers = "0.3"
mime_guess = "2"
filetime = "0.2"
