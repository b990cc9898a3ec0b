[package]
name = "egs_api"
version = "0.1.0"
edition = "2021"
publish = false

[dependencies]
flate2 = "1"
num = "0.4"
serde_json = "1"
sha1 = "0.10"
url = { version = "2", features = ["serde"] }
serde = { version = "1", features = ["derive"] }
serde_with = "3"
log = "0.4"
chrono = { version = "0.4", features = ["serde"] }
time = { version = "0.3", features = ["serde", "formatting", "parsing"] }
reqwest = { version = "0.12", default-features = false, features = ["json", "cookies"] }
