[package]
name = "ferrex_player"
version = "0.1.0"
edition = "2021"
publish = false

[dependencies]
dashmap = "=6.2.1"
priority-queue = "=2.7.0"
base64 = "=0.23.1"
dirs = "=7.0.0"
urlencoding = "*"
