[package]
name = "vocajeux"
version = "0.2.0"
edition = "2021"
publish = false

[dependencies]
ansi_term = "*"
clap = "*"
csv = "*"
dirs = "*"
md5 = "*"
rand = "*"
regex = "*"
serde = { version = "*", features = ["derive"] }
serde_json = "*"
