[package]
name = "dryguard"
version = "0.1.0"
edition = "2021"
publish = false

[dependencies]
lsp-types = "0.97"
serde_json = "1"
clap = { version = "4", features = ["derive"] }
