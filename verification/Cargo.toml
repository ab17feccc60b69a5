[package]
name = "tiny_beast_dictionary"
version = "0.1.0"
edition = "2021"
publish = false

[dependencies]
serde_json = "1"
tar = "0.4"
xz = "*"
reqwest = { version = "0.11", default-features = false, features = ["blocking"] }
