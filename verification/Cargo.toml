[package]
name = "quell_machine"
version = "0.1.0"
edition = "2021"
publish = false

[dependencies]
base64 = "*"
libdeflater = "*"
speedy2d = "*"
clipboard = "*"
image = { version = "*", default-features = false, features = ["png"] }
