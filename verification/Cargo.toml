[package]
name = "dzip"
version = "0.1.0"
edition = "2021"
publish = false

[dependencies]
flate2 = "*"
bzip2 = "*"
lzma-rust2 = "*"
clap = { version = "*", features = ["derive"] }
serde = { version = "*", features = ["derive"] }
toml = "*"
anyhow = "*"
log = "*"
env_logger = "*"
rayon = "*"
