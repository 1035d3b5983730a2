[package]
name = "odoo_lint"
version = "0.1.0"
edition = "2021"
publish = false

[dependencies]
anyhow = "=1.0.104"
ruff_python_ast = "=0.0.8"
ruff_python_codegen = "=0.0.8"
ruff_python_semantic = "=0.0.8"
ruff_python_trivia = "=0.0.8"
ruff_text_size = "=0.0.8"
