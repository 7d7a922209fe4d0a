[package]
name = "mdbook_tag"
version = "0.1.0"
edition = "2021"
publish = false

[dependencies]
mdbook = { version = "=0.3.1", default-features = false }
pulldown-cmark = "0.5"
pulldown-cmark-to-cmark = "1.2"
toml = "0.5"
