[package]
name = "bakashell"
version = "0.1.0"
edition = "2021"
publish = false

[dependencies]
duct = "*"
glob = "0.3"
rustyline = "*"
