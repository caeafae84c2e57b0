[package]
name = "increparse"
version = "0.1.0"
edition = "2021"
publish = false

[dependencies]
chumsky = "0.10"
lsp-server = "*"
lsp-types = "0.97"
mlua = { version = "*", features = ["lua54", "vendored", "send"] }
nom = "8"
nom_locate = "5"
rayon = "1"
serde_json = "1"
