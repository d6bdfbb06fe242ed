[package]
name = "tracklib2"
version = "0.1.0"
edition = "2021"
publish = false

[dependencies]
nom = "7"
nom-leb128 = "0.2"
rutie = "0.8"
