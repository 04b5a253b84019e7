[package]
name = "dua"
version = "0.1.0"
edition = "2021"
publish = false

[dependencies]
byte-unit = "=5.2.6"
unicode-segmentation = "=1.13.3"
gix-glob = "=0.29.1"
gix-ignore = "*"
bstr = "=1.13.1"
serde = { version = "=1.0.229", features = ["derive"] }
toml = "=0.8.23"
crossterm = "=0.28.1"
owo-colors = "=4.4.0"
crossbeam = "=0.8.5"
dirs = "=7.0.0"
filesize = "=0.2.0"
anyhow = "=1.0.104"
