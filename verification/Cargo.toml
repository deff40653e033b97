[package]
name = "pgextmgr"
version = "0.1.0"
edition = "2021"
publish = false

[dependencies]
anyhow = "*"
clap = { version = "*", features = ["derive"] }
console = "*"
duct = "*"
home = "*"
indicatif = "*"
itertools = "*"
num_cpus = "*"
postgres = "*"
serde = { version = "*", features = ["derive"] }
tempfile = "*"
toml = "*"
walkdir = "*"
