[package]
name = "otty_surface"
version = "0.1.0"
edition = "2021"
publish = false

[dependencies]
regex-automata = "0.4"
thiserror = "2"
unicode-width = "0.2"
cursor-icon = "1"
