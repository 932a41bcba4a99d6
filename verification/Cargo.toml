[package]
name = "spec_viewer"
version = "0.1.0"
edition = "2021"
publish = false

[dependencies]
unicode-width = "=0.2.3"
unicode-segmentation = "=1.13.3"
clap = { version = "=4.6.7", features = ["derive"] }
crossterm = "=0.29.0"
ratatui = "=0.30.2"
pulldown-cmark = "=0.13.6"
serde_json = "=1.0.154"
syntect = { version = "5", default-features = false, features = ["default-fancy"] }
ignore = "0.4"
thiserror = "2"
