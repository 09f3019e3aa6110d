[package]
name = "anni_player"
version = "0.1.0"
edition = "2021"
publish = false

[dependencies]
anni-provider = "*"
anyhow = "*"
log = "*"
reqwest = { version = "*", default-features = false, features = ["blocking"] }
