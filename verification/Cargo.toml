[package]
name = "thanos"
version = "0.1.0"
edition = "2021"
publish = false

[dependencies]
arc-swap = "1"
num_cpus = "1"
chrono = "0.4"
clap = { version = "4", features = ["derive"] }
mimalloc = "*"
socket2 = { version = "0.6", features = ["all"] }
tokio = { version = "1", features = ["rt-multi-thread", "macros", "net", "io-util", "time", "signal"] }
