[package]
name = "blockfall"
version = "0.1.0"
edition = "2021"
publish = false

[dependencies]
rand = "=0.8.8"
rusty_time = "=0.12.0"
crossterm = "=0.29.0"
rusty_audio = "=1.4.1"
