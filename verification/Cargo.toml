[package]
name = "star_stacker"
version = "0.1.0"
edition = "2021"
publish = false

[dependencies]
clap = "*"
env_logger = "*"
glob = "*"
log = "*"
opencv = "*"
rayon = "*"
