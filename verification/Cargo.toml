[package]
name = "livepager"
version = "0.1.0"
edition = "2021"
publish = false

[dependencies]
regex = "1"
crossterm = "*"
clap = { version = "4", features = ["derive"] }
glob = "0.3"
notify = "*"
