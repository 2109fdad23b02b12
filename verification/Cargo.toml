[package]
name = "clicsv"
version = "0.1.0"
edition = "2021"
publish = false

[dependencies]
calamine = "=0.22.1"
quick-xml = "=0.30.0"
termion = "4"
unicode-width = "=0.1.14"
zip = { version = "=0.6.6", default-features = false, features = ["deflate"] }
