[package]
name = "stakhal"
version = "0.1.0"
edition = "2021"
publish = false

[dependencies]
tree-sitter = "=0.22.6"
tree-sitter-c = "=0.21.4"
serde = { version = "=1.0.229", features = ["derive"] }
serde_json = "=1.0.154"
thiserror = "=1.0.69"
petgraph = "=0.8.3"
rust-sugiyama = "=0.4.0"
