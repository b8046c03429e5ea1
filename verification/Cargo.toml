[package]
name = "rust_diagnostics"
version = "0.1.0"
edition = "2021"
publish = false

[dependencies]
tree-sitter = "0.20"
tree-sitter-rust = "0.20"
cargo_metadata = "*"
git2 = "*"
structopt = "*"
