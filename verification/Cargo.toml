[package]
name = "kuchikiki"
version = "0.1.0"
edition = "2021"
publish = false

[dependencies]
cssparser = "0.31"
html5ever = "0.26"
selectors = "0.25"
