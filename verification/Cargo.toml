[package]
name = "gqls"
version = "0.1.0"
edition = "2021"
publish = false

[dependencies]
la-arena = "0.3"
smallvec = "1"
tree-sitter = "0.20"
tree-sitter-traversal = "0.1"
salsa = "0.16"
