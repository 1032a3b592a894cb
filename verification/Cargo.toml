[package]
name = "tds"
version = "0.1.1"
edition = "2021"
publish = false

[dependencies]
unicode-width = "=0.2.2"
chrono = "=0.4.45"
colored = "=3.1.1"
dirs = "=7.0.0"
postgres = { version = "=0.19.14", features = ["with-chrono-0_4"] }
serde = { version = "=1.0.229", features = ["derive"] }
serde_json = "=1.0.151"
toml = "=1.1.7"

[dependencies.reqwest]
version = "=0.13.5"
default-features = false
features = ["blocking", "json"]
