[package]
name = "tinybook"
version = "0.1.0"
edition = "2021"
publish = false

[dependencies]
mdbook = { version = "=0.4.52", default-features = false }
pulldown-cmark = "=0.13.4"
serde = { version = "=1.0.229", features = ["derive"] }
serde_derive = "=1.0.229"
