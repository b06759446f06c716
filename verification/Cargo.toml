[package]
name = "kiln"
version = "0.1.0"
edition = "2021"
publish = false

[dependencies]
clap = { version = "4", features = ["derive"] }
colored = "2"
glob = "0.3"
id3 = "1"
image = "0.24"
