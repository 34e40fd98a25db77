[package]
name = "myuzik"
version = "0.1.0"
edition = "2021"
publish = false

[dependencies]
clap = "2"
colored = "*"
dirs = "*"
reqwest = { version = "*", default-features = false, features = ["blocking"] }
rustyline = "*"
