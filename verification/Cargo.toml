[package]
name = "notes"
version = "0.1.0"
edition = "2021"
publish = false

[dependencies]
pulldown-cmark = "=0.13.6"
unicode-width = "=0.2.0"
sha1 = "=0.10.7"
gray_matter = "=0.3.2"
serde = { version = "=1.0.229", features = ["derive"] }
walkdir = "=2.5.0"
thiserror = "=2.0.21"
anyhow = "=1.0.104"
clap = { version = "=4.6.7", features = ["derive"] }
ratatui = "=0.29.0"
ratatui-image = "=8.1.1"
crossterm = "=0.28.1"
image = "=0.25.10"
opener = "=0.7.2"
resvg = "=0.45.1"
mathjax-svg-rs = "*"
