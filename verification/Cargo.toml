[package]
name = "paleta"
version = "0.1.0"
edition = "2021"
publish = false

[dependencies]
html-escape = "0.2"
rusqlite = "*"
directories-next = "2"
xdg = "2"
