[package]
name = "blues"
version = "0.1.0"
edition = "2021"
publish = false

[dependencies]
rand = "0.8"
internet-checksum = "*"
icmp = "*"
nbd = "*"
tokio = { version = "1", features = ["rt-multi-thread", "sync"] }
clap = { version = "4", features = ["derive"] }
env_logger = "*"
log = "0.4"
num_cpus = "1"
serde = { version = "1", features = ["derive"] }
serde_json = "1"
