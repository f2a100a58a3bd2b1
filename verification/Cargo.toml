[package]
name = "cpufreqd"
version = "0.1.0"
edition = "2021"
publish = false

[dependencies]
bincode = { version = "*", features = ["derive"] }
