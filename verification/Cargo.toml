[package]
name = "mini_shogi"
version = "0.1.0"
edition = "2021"
publish = false

[dependencies]
fastrand = "1"
macroquad = "0.3"
num-format = "0.4"
