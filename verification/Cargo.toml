[package]
name = "swap_client"
version = "0.1.0"
edition = "2021"
publish = false

[dependencies]
ethers = "2"
tokio = { version = "1", features = ["rt-multi-thread", "macros"] }
