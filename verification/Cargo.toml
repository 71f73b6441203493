[package]
name = "tftp"
version = "0.1.0"
edition = "2021"
publish = false

[dependencies]
bytes = "1"
prost = "*"
tokio = { version = "*", features = ["full"] }
clap = { version = "*", features = ["derive"] }
