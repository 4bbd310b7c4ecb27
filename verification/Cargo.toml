[package]
name = "scandir"
version = "0.1.0"
edition = "2021"
publish = false

[dependencies]
flume = "*"
expanduser = "*"
serde = "*"
serde_derive = "*"
speedy = "*"
