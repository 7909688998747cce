[package]
name = "sshttp"
version = "0.1.0"
edition = "2021"
publish = false

[dependencies]
anyhow = "1"
clap = { version = "4", features = ["derive", "env"] }
dirs = "6"
rpassword = "7"
russh = { version = "0.60", default-features = false, features = ["ring", "rsa", "flate2"] }
socket2 = { version = "*", features = ["all"] }
tokio = { version = "1", features = ["full"] }
tracing = "0.1"
tracing-subscriber = { version = "0.3", features = ["env-filter"] }
