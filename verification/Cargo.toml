[package]
name = "queso"
version = "0.1.0"
edition = "2021"
publish = false

[dependencies]
bincode = "=2.0.1"
byteorder = "=1.5.0"
camino = "=1.2.6"
camino-tempfile = "=1.4.1"
clap = { version = "=4.6.7", features = ["derive"] }
color-eyre = "=0.6.5"
console = "=0.16.6"
directories = "=6.0.0"
eyre = "=0.6.14"
flate2 = "=1.1.10"
hex = "=0.4.3"
indicatif = "=0.18.6"
serde = { version = "=1.0.229", features = ["derive"] }
sha2 = "=0.11.1"
tar = "=0.4.46"
toml = "=1.1.8"
ureq = "=3.5.1"
walkdir = "=2.5.0"
zip = { version = "=9.0.5", default-features = false, features = ["deflate"] }
zstd = "=0.13.4"
