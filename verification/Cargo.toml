[package]
name = "audioctl"
version = "0.1.0"
edition = "2021"
publish = false

[dependencies]
core-foundation = "0.9"
core-graphics = "0.22"
termion = "2.0"
