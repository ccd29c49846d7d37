[package]
name = "requeasy"
version = "0.1.0"
edition = "2021"
publish = false

[dependencies]
rustls = "0.21"
webpki-roots = "0.25"
