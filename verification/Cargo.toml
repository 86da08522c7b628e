[package]
name = "rustdn"
version = "0.1.0"
edition = "2021"
publish = false

[dependencies]
dirs = "*"
rustix = { version = "*", features = ["fs"] }
tracing = "*"
tracing-subscriber = { version = "*", features = ["env-filter"] }
