[package]
name = "wax"
version = "0.1.0"
edition = "2021"
publish = false

[dependencies]
clap = { version = "4", features = ["derive"] }
console = "0.15"
directories = "5"
dunce = "1"
flate2 = "1"
futures = "0.3"
indicatif = "0.17"
inquire = "0.7"
num_cpus = "1"
reqwest = { version = "0.12", default-features = false, features = ["rustls-tls", "gzip", "brotli", "json", "stream"] }
serde = { version = "1", features = ["derive"] }
serde_json = "1"
sha2 = "0.10"
shellexpand = "3"
tar = "0.4"
tempfile = "3"
thiserror = "1"
tokio = { version = "1", features = ["rt-multi-thread", "macros", "fs", "process", "sync", "io-util", "time"] }
toml = "0.8"
tracing = "0.1"
tracing-subscriber = "0.3"
