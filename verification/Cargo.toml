[package]
name = "rune_lock"
version = "0.1.0"
edition = "2021"
publish = false

[dependencies]
ndarray = "0.16"
itertools = "*"
thiserror = "*"
crossterm = "*"
