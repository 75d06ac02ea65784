[package]
name = "phd"
version = "0.1.0"
edition = "2021"
publish = false

[dependencies]
alphanumeric-sort = "*"
content_inspector = "*"
threadpool = "*"
