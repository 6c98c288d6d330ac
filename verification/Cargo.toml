[package]
name = "piteria"
version = "0.1.0"
edition = "2021"
publish = false

[dependencies]
uuid = { version = "1", features = ["v4"] }
tokio = { version = "1", features = ["net", "sync", "rt-multi-thread", "macros", "io-util", "time", "signal"] }
clap = { version = "4", features = ["derive"] }
signal-hook = "0.3"
