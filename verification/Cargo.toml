[package]
name = "apk_packager"
version = "0.1.0"
edition = "2021"
publish = false

[dependencies]
tar = "0.4"
flate2 = "1"
reqwest = { version = "0.12", default-features = false, features = ["blocking"] }
