[package]
name = "ycg_core"
version = "0.1.0"
edition = "2021"
publish = false

[dependencies]
xxhash-rust = { version = "*", features = ["xxh64"] }
glob = "*"
ignore = "*"
tree-sitter = "0.20"
tree-sitter-typescript = "0.20"
tree-sitter-javascript = "0.20"
tree-sitter-rust = "0.20"
prost = "*"
serde = { version = "*", features = ["derive"] }
serde_yaml = "*"
tiktoken-rs = "*"
