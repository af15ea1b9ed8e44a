[package]
name = "bitcache"
version = "0.1.0"
edition = "2021"
publish = false

[dependencies]
md5 = "=0.7.0"
chrono = "=0.4.45"
clap = { version = "=4.6.7", features = ["derive"] }
tempfile = "=3.27.0"

[dev-dependencies]
serde_json = "=1.0.151"
