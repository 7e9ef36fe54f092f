[package]
name = "ssh-agent-switcher"
version = "1.0.0"
edition = "2021"
publish = false

[dependencies]
env_logger = "*"
getoptsargs = "*"
libc = "*"
log = "*"
signal-hook = "*"
tokio = { version = "1", features = ["io-util", "macros", "net", "rt"] }
