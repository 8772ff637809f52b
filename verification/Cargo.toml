[package]
name = "git-scribe"
version = "0.1.0"
edition = "2021"
publish = false

[dependencies]
anyhow = "1"
clap = { version = "4", features = ["derive"] }
git2 = { version = "*", default-features = false }
humantime = "2"
reqwest = { version = "0.12", default-features = false, features = ["blocking", "json"] }
serde = { version = "1", features = ["derive"] }
serde_json = "1"
terminal_size = "0.4"
thiserror = "2"
time = { version = "0.3", features = ["formatting", "local-offset"] }
tree-sitter = "*"
tree-sitter-bash = "*"
tree-sitter-c = "*"
tree-sitter-cpp = "*"
tree-sitter-css = "*"
tree-sitter-html = "*"
tree-sitter-javascript = "*"
tree-sitter-json = "*"
tree-sitter-python = "*"
tree-sitter-rust = "*"
tree-sitter-swift = "*"
tree-sitter-toml-ng = "*"
tree-sitter-typescript = "*"
