[package]
name = "mermaid_preview"
version = "0.1.0"
edition = "2021"
publish = false

[dependencies]
sha2 = "*"
html-escape = "*"
anyhow = "*"
chrono = "*"
env_logger = "*"
log = "*"
lsp-server = "*"
lsp-types = "*"
serde_json = "*"
url = "*"
tempfile = "*"
which = "*"
