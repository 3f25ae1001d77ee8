[package]
name = "gmx"
version = "0.1.0"
edition = "2021"
publish = false

[dependencies]
image = { version = "*", default-features = false, features = ["png"] }
md-5 = "*"
quick-xml = "*"
rayon = "*"
zip = { version = "*", default-features = false, features = ["deflate"] }
