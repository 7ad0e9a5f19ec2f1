[package]
name = "valley_search"
version = "0.1.0"
edition = "2021"
publish = false

[dependencies]
rand = "=0.9.5"
rusqlite = { version = "=0.40.2", features = ["bundled", "fallible_uint"] }
tokio = { version = "=1.53.2", features = ["rt-multi-thread", "sync", "macros", "time"] }
