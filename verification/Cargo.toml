[package]
name = "mdbook_emojicodes"
version = "0.1.0"
edition = "2021"
publish = false

[dependencies]
emojis = "=0.9.0"
anyhow = "=1.0.104"
mdbook-preprocessor = "=0.5.4"
mdbook-preprocessor-boilerplate = "=0.2.0"
