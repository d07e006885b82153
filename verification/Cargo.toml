[package]
name = "roshambo"
version = "0.1.0"
edition = "2021"
publish = false

[dependencies]
inquire = "0.6"
itertools = "0.10"
rand = "0.8"
snafu = "0.7"
