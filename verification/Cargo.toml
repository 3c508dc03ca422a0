[package]
name = "hermit_analyze"
version = "0.1.0"
edition = "2021"
publish = false

[dependencies]
regex = "*"
rand = "*"
rand_pcg = "*"
anyhow = "*"
clap = { version = "*", features = ["derive"] }
colored = "*"
serde = { version = "*", features = ["derive"] }
serde_json = "*"
tempfile = "*"
