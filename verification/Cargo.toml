[package]
name = "pong_with_guns"
version = "0.1.0"
edition = "2021"
publish = false

[dependencies]
hecs = "=0.10.5"
macroquad = { version = "=0.4.16", default-features = false }
rodio = { version = "=0.19.0", default-features = false, features = ["wav"] }
