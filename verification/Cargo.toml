[package]
name = "latex_to_html"
version = "0.1.0"
edition = "2021"
publish = false

[dependencies]
sha2 = "*"
hex = "*"
convert_case = "*"
minidom = "*"
tempdir = "*"
rayon = "*"
