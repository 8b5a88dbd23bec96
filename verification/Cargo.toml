[package]
name = "mc_server"
version = "0.1.0"
edition = "2021"
publish = false

[dependencies]
bson = "2"
config = "0.14"
tokio = { version = "1", features = ["full"] }
