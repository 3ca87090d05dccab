[package]
name = "sniffooor"
version = "0.1.0"
edition = "2021"
publish = false

[dependencies]
starknet = "0.7"
tokio = { version = "1", features = ["macros", "rt-multi-thread", "time"] }
url = "2"
async-trait = "0.1"
