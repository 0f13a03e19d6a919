[package]
name = "cleave"
version = "0.1.0"
edition = "2021"
publish = false

[dependencies]
egg = "0.11"
ordered-float = "*"
pest = "2"
