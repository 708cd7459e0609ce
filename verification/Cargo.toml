[package]
name = "superhq"
version = "0.1.0"
edition = "2021"
publish = false

[dependencies]
base64 = "=0.22.1"
getrandom = "0.2"
ignore = "=0.4.34"
serde_json = "=1.0.154"
shuru-proto = "=0.6.0"
similar = "=2.7.0"
tree-sitter = "=0.27.1"
tree-sitter-bash = "=0.25.1"
tree-sitter-c = "=0.24.2"
tree-sitter-cpp = "=0.23.4"
tree-sitter-css = "=0.25.0"
tree-sitter-elixir = "=0.3.5"
tree-sitter-go = "=0.25.0"
tree-sitter-html = "=0.23.2"
tree-sitter-java = "=0.23.5"
tree-sitter-javascript = "=0.25.0"
tree-sitter-json = "=0.24.8"
tree-sitter-md = "=0.5.4"
tree-sitter-python = "=0.25.0"
tree-sitter-ruby = "=0.23.1"
tree-sitter-rust = "=0.24.2"
tree-sitter-scala = "=0.26.4"
tree-sitter-sequel = "=0.3.11"
tree-sitter-swift = "=0.7.4"
tree-sitter-toml-ng = "=0.7.0"
tree-sitter-typescript = "=0.23.2"
tree-sitter-yaml = "=0.7.2"
tree-sitter-zig = "=1.1.2"
unicode-segmentation = "=1.13.3"
uuid = { version = "=1.29.0", features = ["v4"] }
