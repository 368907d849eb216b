[package]
name = "hlcup"
version = "0.1.0"
edition = "2021"
publish = false

[dependencies]
serde = { version = "1", features = ["derive"] }
tokio = { version = "1", features = ["rt-multi-thread", "macros", "sync", "time", "signal"] }
futures = "0.3"
reqwest = { version = "0.11", default-features = false, features = ["json"] }
histogram = "0.6"
