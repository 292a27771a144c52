[package]
name = "cordl"
version = "0.1.0"
edition = "2021"
publish = false

[dependencies]
clap = { version = "4", features = ["derive"] }
color-eyre = "0.6"
filesize = "0.2"
include_dir = "0.7"
itertools = "0.12"
log = "0.4"
pretty_env_logger = "0.5"
rayon = "1"
walkdir = "2"
