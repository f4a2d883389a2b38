[package]
name = "weldr"
version = "0.1.0"
edition = "2021"
publish = false

[dependencies]
nom = "7.1"
base64 = "0.21"
glam = "0.24"
