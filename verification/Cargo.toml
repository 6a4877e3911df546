[package]
name = "ctxl"
version = "0.1.0"
edition = "2021"
publish = false

[dependencies]
clap = { version = "4", features = ["derive", "env"] }
dirs = "5"
flatten-json-object = "0.6"
getrandom = "0.2"
htmd = "0.1"
rusqlite = { version = "0.31", features = ["bundled"] }
serde = { version = "1", features = ["derive"] }
serde_json = "1"
simhash = "0.2"
strip-ansi-escapes = "0.2"
tokenx-rs = "*"
tree-sitter = "0.22"
tree-sitter-bash = "0.21"
tree-sitter-c = "0.21"
tree-sitter-cpp = "0.22"
tree-sitter-css = "0.21"
tree-sitter-go = "0.21"
tree-sitter-java = "0.21"
tree-sitter-javascript = "0.21"
tree-sitter-json = "0.21"
tree-sitter-python = "0.21"
tree-sitter-ruby = "0.21"
tree-sitter-rust = "0.21"
tree-sitter-typescript = "0.21"
xxhash-rust = { version = "0.8", features = ["xxh3"] }
