[package]
name = "poof"
version = "0.1.0"
edition = "2021"
publish = false

[dependencies]
dashmap = "*"
clap = { version = "*", default-features = false, features = ["std", "derive", "help", "usage"] }
iroh = { version = "*", default-features = false }
iroh-blobs = { version = "*", default-features = false }
tokio = { version = "*", features = ["rt-multi-thread", "macros", "signal", "io-util", "fs", "time"] }
