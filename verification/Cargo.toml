[package]
name = "noline"
version = "0.1.0"
edition = "2021"
publish = false

[dependencies]
nb = "1"
embedded-hal = "0.2"
genawaiter = { version = "0.99", default-features = false }
