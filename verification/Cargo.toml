[package]
name = "captive_portal_finder"
version = "0.1.0"
edition = "2021"
publish = false

[dependencies]
url = "2"
clap = { version = "4", features = ["derive"] }
tokio = { version = "1", features = ["rt-multi-thread", "macros", "fs", "process", "time"] }
futures = "0.3"
reqwest = { version = "0.12", default-features = false, features = ["rustls-tls"] }
