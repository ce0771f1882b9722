[package]
name = "tree_sitter_context"
version = "0.1.0"
edition = "2021"
publish = false

[dependencies]
xxhash-rust = { version = "0.8", features = ["xxh3"] }
anyhow = "1"
clap = { version = "4", features = ["derive"] }
serde = { version = "1", features = ["derive"] }
serde_json = "1"
tree-sitter = "*"
tree-sitter-loader = "*"
tree-sitter-config = "*"
tree-sitter-tags = "*"
walkdir = "2"
uuid = { version = "1", features = ["v4"] }

[dev-dependencies]
tree-sitter-rust = "*"
