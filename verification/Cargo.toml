[package]
name = "swhid_core"
version = "0.1.0"
edition = "2021"
publish = false

[dependencies]
sha1 = "*"
clap = { version = "*", features = ["derive"] }

[dev-dependencies]
hex = "*"
