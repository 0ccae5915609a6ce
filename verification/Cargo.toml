[package]
name = "bookstore"
version = "0.1.0"
edition = "2021"
publish = false

[dependencies]
diesel = { version = "2", features = ["postgres"] }
dotenvy = "*"
eyre = "*"
