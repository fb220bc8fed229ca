[package]
name = "redis_server"
version = "0.1.0"
edition = "2021"
publish = false

[dependencies]
bytes = "1"
memchr = "2"
log = "0.4"
env_logger = "*"
