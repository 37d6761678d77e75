[package]
name = "filmow2letterboxd"
version = "0.1.0"
edition = "2021"
publish = false

[dependencies]
select = "*"
csv = "*"
log = "*"
env_logger = "*"
reqwest = { version = "*", default-features = false }
tokio = { version = "*", features = ["rt-multi-thread", "macros"] }
tokio-retry = "*"
