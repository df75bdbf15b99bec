[package]
name = "unit_sim"
version = "0.1.0"
edition = "2021"
publish = false

[dependencies]
glium = "0.36.0"
rand = "0.3.23"
time = "0.1.45"
xmath = "0.2.9"
