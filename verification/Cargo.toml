[package]
name = "cgen"
version = "0.1.0"
edition = "2021"
publish = false

[dependencies]
clang = { version = "2", features = ["runtime"] }
clap = { version = "4", features = ["derive"] }
ignore = "0.4"
miette = "7"
notify = "*"
noyalib = "*"
schemars = "1"
serde = { version = "1", features = ["derive"] }
serde_json = "1"
smart-default = "0.7"
thiserror = "2"
toml = "*"
twox-hash = "2"
walkdir = "2"
