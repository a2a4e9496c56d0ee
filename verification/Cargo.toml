[package]
name = "sqlness"
version = "0.1.0"
edition = "2021"
publish = false

[dependencies]
async-trait = "=0.1.92"
clap = { version = "=4.6.7", features = ["derive"] }
duration-str = "=0.11.3"
futures = "=0.3.34"
minijinja = "=1.0.22"
mysql = "*"
postgres = "=0.19.14"
prettydiff = { version = "=0.6.4", default-features = false }
regex = "=1.13.1"
serde = { version = "=1.0.229", features = ["derive"] }
serde_json = "=1.0.154"
thiserror = "=1.0.69"
toml = "=0.5.11"
walkdir = "=2.5.0"
