[package]
name = "auth"
version = "0.1.0"
edition = "2021"
publish = false

[dependencies]
anyhow = "*"
blake3 = "*"
clap = { version = "*", features = ["derive"] }
rand = "*"
thiserror = "*"
tokio = { version = "*", features = ["rt-multi-thread", "macros", "fs"] }
