[package]
name = "lua_comment_stripper"
version = "0.1.0"
edition = "2021"
publish = false

[dependencies]
analisar = "*"
lex_lua = "*"
diff = "*"
walkdir = "*"
clap = { version = "*", features = ["derive"] }
pyo3 = "*"
