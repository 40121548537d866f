[package]
name = "liquesco"
version = "0.1.0"
edition = "2021"
publish = false

[dependencies]
byteorder = "1"
varuint = "*"
smallvec = "*"
data-encoding = "2"
yaml-rust = "0.4"
uuid = { version = "*", features = ["v4"] }
minidom = "*"
