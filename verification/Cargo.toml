[package]
name = "highlight_render"
version = "0.1.0"
edition = "2021"
publish = false

[dependencies]
image = { version = "=0.24.9", default-features = false, features = ["png"] }
non-empty-vec = "=0.2.4"
rusttype = "=0.9.3"
tree-sitter = "=0.20.10"
tree-sitter-highlight = "=0.20.1"
serenity = "=0.11.7"
tokio = { version = "=1.54.1", features = ["full"] }
owoify_rs = "=1.1.0"
unicode-normalization = "=0.1.26"
lazy_static = "=1.4.0"
const_format = "=0.2.37"
hex-literal = "=0.3.4"

[dev-dependencies]
tree-sitter-json = "=0.20.2"
