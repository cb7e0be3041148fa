[package]
name = "app_organizer"
version = "0.1.0"
edition = "2021"
publish = false

[dependencies]
clap = { version = "4", features = ["derive"] }
globset = "0.4"
ignore = "0.4"
serde = { version = "1", features = ["derive"] }
serde_json = "1"
toml = "*"
tree-sitter = "*"
tree-sitter-python = "*"
tree-sitter-rust = "*"
