[package]
name = "dieselrogue"
version = "0.1.0"
edition = "2021"
publish = false

[dependencies]
rltk = "0.8"
serde_json = "1"
flate2 = "1"
image = "0.24"
