[package]
name = "smtp2tg"
version = "0.1.0"
edition = "2021"
publish = false

[dependencies]
anyhow = "*"
async-std = { version = "*", features = ["attributes"] }
config = { version = "*", default-features = false, features = ["toml"] }
hostname = "*"
just-getopt = "*"
mail-parser = "*"
mailin-embedded = "*"
stacked_errors = "*"
tgbot = "*"
