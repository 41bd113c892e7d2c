[package]
name = "espuino_sync"
version = "0.1.0"
edition = "2021"
publish = false

[dependencies]
feed-rs = "=3.0.0"
reqwest = { version = "=0.13.5", default-features = false, features = ["multipart", "json", "query"] }
tokio = { version = "*", features = ["macros", "rt-multi-thread"] }
clap = { version = "*", features = ["derive"] }
configparser = "*"
serde = { version = "*", features = ["derive"] }
