[package]
name = "croner"
version = "4.0.0"
edition = "2021"
publish = false

[dependencies]
chrono = "=0.4.45"
jiff = { version = "=0.2.39", features = ["tzdb-bundle-always"] }
serde = "=1.0.229"

[dev-dependencies]
chrono-tz = "=0.10.4"
