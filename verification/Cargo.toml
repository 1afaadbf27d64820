[package]
name = "selma"
version = "0.1.0"
edition = "2021"
publish = false

[dependencies]
escapist = "*"
lol_html = "1.2"
magnus = "0.6"
