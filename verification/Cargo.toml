[package]
name = "deet"
version = "0.1.0"
edition = "2021"
publish = false

[dependencies]
nix = { version = "0.29", features = ["ptrace", "signal", "process"] }
rand = "0.7"
crossbeam-channel = "*"
clap = { version = "4", features = ["derive"] }
http = "*"
log = "*"
num_cpus = "*"
pretty_env_logger = "*"
reqwest = { version = "*", default-features = false, features = ["blocking"] }
rustyline = "*"
