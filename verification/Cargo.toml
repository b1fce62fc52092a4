[package]
name = "rmenu"
version = "0.1.0"
edition = "2021"
publish = false

[dependencies]
gtk = "*"
nom = "1.2"
xdg = "*"
