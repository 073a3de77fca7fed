[package]
name = "class_diagram"
version = "0.1.0"
edition = "2021"
publish = false

[dependencies]
syn = { version = "=2.0.119", features = ["full"] }
quote = "=1.0.47"
proc-macro2 = "=1.0.107"
walkdir = "=2.5.0"
tokio = { version = "=1.54.1", features = ["rt-multi-thread", "macros", "process"] }
async-lsp-client = "=0.2.3"
lsp-types = "=0.94.1"
