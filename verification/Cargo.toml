[package]
name = "upgrades"
version = "0.1.0"
edition = "2021"
publish = false

[dependencies]
alpm = "=5.0.2"
alpm-utils = { version = "=5.0.0", features = ["alpm"] }
anyhow = "=1.0.104"
aur-depends = "=5.0.0"
chrono = "=0.4.45"
futures = "=0.3.34"
tr = { version = "=0.1.11", default-features = false }
