[package]
name = "better_control_panel"
version = "0.1.0"
edition = "2021"
publish = false

[dependencies]
num = "*"
rand = "*"
interprocess = "*"
single-instance = "*"
clap = { version = "*", features = ["derive"] }
chrono = "*"
rhai = "*"
