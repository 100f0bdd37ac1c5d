[package]
name = "kiyomi"
version = "0.1.0"
edition = "2021"
publish = false

[dependencies]
zip = { version = "*", default-features = false, features = ["deflate"] }
infer = "*"
epub-builder = "*"
notify = "*"
dirs = "*"
toml = "*"
lettre = { version = "*", default-features = false, features = ["smtp-transport", "builder", "rustls-tls"] }
