[package]
name = "mdx2md"
version = "0.1.0"
edition = "2021"
publish = false

[dependencies]
pulldown-cmark = { version = "*", default-features = false }
serde = { version = "*", features = ["derive"] }
toml = "*"
