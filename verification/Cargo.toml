[package]
name = "model3d_base"
version = "0.1.0"
edition = "2021"
publish = false

[dependencies]
geo-nd = "*"
