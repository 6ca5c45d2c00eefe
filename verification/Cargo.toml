[package]
name = "openixcli"
version = "0.1.0"
edition = "2021"
publish = false

[dependencies]
anyhow = "1"
indicatif = "*"
memmap2 = "*"
tokio = { version = "1", features = ["rt-multi-thread", "macros", "time"] }
