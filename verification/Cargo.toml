[package]
name = "rose_store"
version = "0.1.0"
edition = "2021"
publish = false

[dependencies]
actix-web = "4"
actix-rt = "2"
tokio = { version = "1", features = ["fs", "io-util", "sync", "time", "rt", "macros"] }
tokio-util = { version = "0.7", features = ["io"] }
futures-util = "0.3"
left-right = "*"
uuid = { version = "1", features = ["serde"] }
mime = "0.3"
thiserror = "1"
dotenv = "0.15"
pretty_env_logger = "0.5"
