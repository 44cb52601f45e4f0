[package]
name = "quietwrite"
version = "0.10.0"
edition = "2021"
publish = false

[dependencies]
argon2 = "0.5"
chacha20poly1305 = "0.10"
chrono = "0.4"
crossterm = "0.28"
fontdue = "0.9"
getrandom = "0.3"
libc = "0.2"
pulldown-cmark = "0.13"
ratatui = "0.29"
tiny_http = "0.12"
zeroize = "1"
