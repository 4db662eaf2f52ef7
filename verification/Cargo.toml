[package]
name = "puzzle_generator"
version = "0.1.0"
edition = "2021"
publish = false

[dependencies]
rand = "0.8"
ctrlc = "3"
flate2 = "1"
speedy = "0.8"
