[package]
name = "heston_calibration"
version = "0.1.0"
edition = "2021"
publish = false

[dependencies]
csv = "1"
num-complex = "0.4"
argmin = "*"
argmin-math = { version = "*", features = ["vec"] }
