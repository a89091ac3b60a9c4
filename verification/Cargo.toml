[package]
name = "rustimoji"
version = "0.1.0"
edition = "2021"
publish = false

[dependencies]
bincode = "1"
clap = { version = "4", features = ["derive"] }
diacritics = "*"
glob = "0.3"
rofi = "*"
serde = { version = "1", features = ["derive"] }
