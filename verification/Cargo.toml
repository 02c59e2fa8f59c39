[package]
name = "mbtiles"
version = "0.1.0"
edition = "2021"
publish = false

[dependencies]
md-5 = "=0.11.0"
bsdiff = "=0.2.1"
flate2 = "=1.1.10"
serde = { version = "=1.0.229", features = ["derive"] }
serde_json = "=1.0.151"
serde_with = "=3.24.0"
thiserror = "=2.0.21"
url = { version = "=2.5.8", features = ["serde"] }
log = "*"
futures = "*"
sqlx = { version = "*", default-features = false, features = ["sqlite", "runtime-tokio"] }
