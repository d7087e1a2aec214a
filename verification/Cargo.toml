[package]
name = "cigar_stats"
version = "0.1.0"
edition = "2021"
publish = false

[dependencies]
clap = { version = "4", features = ["derive"] }
flate2 = "1"

[dev-dependencies]
regex = "1"
