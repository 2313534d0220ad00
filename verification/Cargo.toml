[package]
name = "bloxtree"
version = "0.1.0"
edition = "2021"
publish = false

[dependencies]
blake3 = "1"
uuid = { version = "1", features = ["v7"] }
chrono = "0.4"
turso = "*"
tokio = { version = "1", features = ["rt-multi-thread", "macros"] }
fuser = "*"
tempfile = "3"
clap = { version = "4", features = ["derive"] }
dirs = "*"
thiserror = "2"
