[package]
name = "openscad_lsp"
version = "0.1.0"
edition = "2021"
publish = false

[dependencies]
tree-sitter = "=0.20.10"
tree-sitter-openscad = "=0.5.1"
linked-hash-map = "=0.5.6"
lsp-server = "=0.10.0"
lsp-types = "=0.97.0"
serde = { version = "=1.0.229", features = ["derive"] }
serde_json = "=1.0.151"
clap = { version = "=4.6.7", features = ["derive"] }
directories = "=6.0.0"
shellexpand = "=3.1.2"
