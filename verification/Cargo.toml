[package]
name = "mdbook_unlink"
version = "0.1.0"
edition = "2021"
publish = false

[dependencies]
pulldown-cmark = "0.9"
semver = "1"
serde = { version = "1", features = ["derive"] }
mdbook = { version = "0.4", default-features = false }
