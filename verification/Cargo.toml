[package]
name = "rusty-axml"
version = "0.1.0"
edition = "2021"
publish = false

[dependencies]
byteorder = "1"
quick-xml = "*"
thiserror = "*"
zip = { version = "*", default-features = false, features = ["deflate"] }
