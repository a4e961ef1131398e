[package]
name = "ycg_core"
version = "0.1.0"
edition = "2021"
publish = false

[dependencies]
anyhow = "1"
clap = { version = "4", features = ["derive"] }
glob = "0.3"
prost = "*"
regex = "1"
serde = { version = "1", features = ["derive"] }
serde_json = "1"
serde_yaml = "0.9"
thiserror = "1"
tiktoken-rs = "*"
tree-sitter = "0.20"
tree-sitter-javascript = "0.20"
tree-sitter-rust = "0.20"
tree-sitter-typescript = "0.20"
xxhash-rust = { version = "0.8", features = ["xxh64"] }

[dev-dependencies]
scip = "*"
