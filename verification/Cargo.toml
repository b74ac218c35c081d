[package]
name = "promptly"
version = "0.1.0"
edition = "2021"
publish = false

[dependencies]
chrono = "0.4"
clap = "2"
failure = "0.1"
git2 = "*"
hostname = "0.1"
time = "0.1"
users = "*"
