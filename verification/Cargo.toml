[package]
name = "mem-ring"
version = "0.2.0"
edition = "2021"
publish = false

[dependencies]
libc = "0.2"
parking_lot = "0.12"
tokio = { version = "1", features = ["rt", "net", "sync", "macros", "time"] }
