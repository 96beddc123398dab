[package]
name = "signal_stream"
version = "0.1.0"
edition = "2021"
publish = false

[dependencies]
csv = "1"
rand = "0.9"
clap = { version = "4", features = ["derive"] }
tokio = { version = "1", features = ["macros", "rt", "time"] }
