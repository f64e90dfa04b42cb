[package]
name = "mirror_sync"
version = "0.1.0"
edition = "2021"
publish = false

[dependencies]
filetime = "0.2"
futures = "0.3"
tokio = { version = "1", features = ["fs", "rt"] }
