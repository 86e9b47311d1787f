[package]
name = "archive_transcode"
version = "0.1.0"
edition = "2021"
publish = false

[dependencies]
image = { version = "=0.24.9", features = ["webp-encoder"] }
num_cpus = "=1.17.0"
clap = { version = "=4.6.7", features = ["derive"] }
indicatif = "=0.17.11"
console = "=0.15.11"
log = "=0.4.34"
glob = "=0.3.4"
thiserror = "=1.0.69"
tokio = { version = "=1.54.1", features = ["full"] }
tokio-util = { version = "=0.7.20", features = ["compat"] }
futures = "=0.3.34"
async_zip = { version = "=0.0.19", features = ["tokio", "tokio-fs", "deflate"] }
sevenz-rust = { version = "=0.6.1", features = ["compress"] }
archive-reader = "=0.4.2"
