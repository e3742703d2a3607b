[package]
name = "l2cpu_boot"
version = "0.1.0"
edition = "2021"
publish = false

[dependencies]
clap = { version = "*", features = ["derive"] }
clap-num = "*"
luwen-if = "*"
luwen-ref = "*"
