[package]
name = "hwarang"
version = "0.1.0"
edition = "2021"
publish = false

[dependencies]
argon2 = { version = "=0.5.3", features = ["std"] }
rusqlite = "=0.32.1"
tokio = { version = "=1.54.1", features = ["rt-multi-thread", "net", "io-util", "macros", "signal", "sync"] }
