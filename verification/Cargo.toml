[package]
name = "pokeget"
version = "0.1.0"
edition = "2021"
publish = false

[dependencies]
bimap = "*"
csv = "1"
Inflector = "0.11"
rand = "0.8"
sanitize-filename = "*"
image = "*"
showie = "*"
terminal_size = "*"
clap = { version = "4", features = ["derive"] }
