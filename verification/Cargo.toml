[package]
name = "xschem-parser"
version = "0.1.0"
edition = "2021"
publish = false

[dependencies]
nom = "8"
colored = "*"

[dev-dependencies]
nom_locate = "5"
