[package]
name = "dora"
version = "0.1.0"
edition = "2021"
publish = false

[dependencies]
regex = "1"
similar = "2"
bincode = { version = "2", features = ["serde"] }
serde = { version = "1", features = ["derive"] }
clap = { version = "4", features = ["derive"] }
clap_complete = "4"
ignore = "0.4"
rayon = "1"
rusqlite = { version = "*", features = ["bundled"] }
memmap2 = "0.9"
tree-sitter = "*"
tree-sitter-rust = "*"
tree-sitter-python = "*"
tree-sitter-javascript = "*"
tree-sitter-typescript = "*"
tree-sitter-go = "*"
tree-sitter-c = "*"
tree-sitter-cpp = "*"
streaming-iterator = "0.1"
ratatui = "*"
crossterm = { version = "*", features = ["event-stream"] }
tokio = { version = "1", features = ["rt-multi-thread", "macros", "sync", "time"] }
tokio-stream = "0.1"
tokio-util = "0.7"
scopeguard = "1"
thiserror = "*"
