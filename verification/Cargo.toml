[package]
name = "balancebeam"
version = "0.1.0"
edition = "2021"
publish = false

[dependencies]
rand = "0.8"
tokio = { version = "1", features = ["macros", "rt-multi-thread", "net", "time", "io-util", "sync"] }
http = "1"
clap = { version = "4", features = ["derive"] }
log = "0.4"
pretty_env_logger = "0.5"
