[package]
name = "jedis"
version = "0.1.0"
edition = "2021"
publish = false

[dependencies]
clap = { version = "4", features = ["derive"] }
dotenvy = "0.15"
rand = "0.8"
tokio = { version = "1", features = ["full"] }
