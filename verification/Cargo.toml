[package]
name = "fss"
version = "0.1.0"
edition = "2021"
publish = false

[dependencies]
rand = "0.8"
rand_chacha = "0.3"
num = "0.4"
serde = { version = "1", features = ["derive"] }
bincode = "1"
