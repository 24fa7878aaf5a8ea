[package]
name = "cargo-mtime"
version = "0.1.0"
edition = "2021"
publish = false

[dependencies]
async-trait = "*"
async-walkdir = "*"
color-eyre = "*"
filetime = "*"
futures = "*"
redis = { version = "*", features = ["tokio-comp", "aio"] }
sha256 = "*"
speedy = "*"
tokio = { version = "*", features = ["full"] }
tracing = "*"
tracing-subscriber = { version = "*", features = ["env-filter"] }
