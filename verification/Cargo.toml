[package]
name = "kinsaga"
version = "0.5.0"
edition = "2021"
publish = false

[dependencies]
uuid = { version = "1", features = ["v4"] }
url = "2"
regex = "1"
jiff = "*"
rust_iso3166 = "*"
serde = { version = "1", features = ["derive"] }
serde_json = "1"
thiserror = "2"
clap = { version = "4", features = ["derive", "env"] }
dotenvy = "0.15"
colored = "3"
anyhow = "1"
env_logger = "0.11"
chrono = "0.4"
tempfile = "3"
ureq = "3"
