[package]
name = "todors"
version = "0.1.0"
edition = "2021"
publish = false

[dependencies]
chrono = "=0.4.45"
ncurses = "=5.101.0"
