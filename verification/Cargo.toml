[package]
name = "font_macro"
version = "0.1.0"
edition = "2021"
publish = false

[dependencies]
rusttype = "0.9"
syn = "2"
quote = "1"
proc-macro2 = "1"
