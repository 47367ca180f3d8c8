[package]
name = "audiora"
version = "0.1.0"
edition = "2021"
publish = false

[dependencies]
pdf-extract = "*"
gtts = "*"
tokio = { version = "*", features = ["macros", "rt-multi-thread", "time"] }
