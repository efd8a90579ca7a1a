[package]
name = "crates_mirror"
version = "0.1.0"
edition = "2021"
publish = false

[dependencies]
crossbeam-channel = "*"
http = "*"
openssl = "*"
serde_json = "*"
sled = "*"
reqwest = { version = "*", default-features = false, features = ["blocking"] }
