[package]
name = "d2fileformats"
version = "0.1.0"
edition = "2021"
publish = false

[dependencies]
byteorder = "=1.5.0"
ndarray = "=0.15.6"
amethyst = { version = "0.15", default-features = false, features = ["renderer", "empty"] }
mpq = "*"
