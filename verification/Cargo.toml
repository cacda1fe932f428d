[package]
name = "dbn"
version = "0.1.0"
edition = "2021"
publish = false

[dependencies]
zstd = "*"
tokio = { version = "*", features = ["fs", "io-util"] }
async-compression = { version = "*", features = ["tokio", "zstd"] }
streaming-iterator = "*"
