[package]
name = "rudiff"
version = "0.1.0"
edition = "2021"
publish = false

[dependencies]
anyhow = "1"
clap = { version = "4", features = ["derive"] }
gix = "*"
globset = "0.4"
ratatui = "*"
seahash = "4"
serde = { version = "1", features = ["derive"] }
serde_json = "1"
similar = "2"
toml = "*"
tree-sitter = "*"
tree-sitter-go = "*"
tree-sitter-highlight = "*"
tree-sitter-java = "*"
tree-sitter-javascript = "*"
tree-sitter-python = "*"
tree-sitter-rust = "*"
tree-sitter-typescript = "*"
unicode-width = "0.2"
