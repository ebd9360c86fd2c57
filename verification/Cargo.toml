[package]
name = "passrs"
version = "0.1.0"
edition = "2021"
publish = false

[dependencies]
totp-rs = "=5.7.2"
orion = "=0.18.0"
rand = "=0.8.8"
crossterm = "=0.29.0"
