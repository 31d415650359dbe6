[package]
name = "weggli_enhance"
version = "0.1.0"
edition = "2021"
publish = false

[dependencies]
fancy-regex = "*"
clap = "2"
colored = "2"
log = "0.4"
simplelog = "0.12"
nix = { version = "0.29", features = ["signal"] }
rayon = "1"
thread_local = "1"
serde = { version = "1", features = ["derive"] }
serde_json = "1"
serde_yaml = "0.9"
serde-sarif = "0.4"
walkdir = "2"
