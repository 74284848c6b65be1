[package]
name = "postergen"
version = "0.1.0"
edition = "2021"
publish = false

[dependencies]
html_parser = "*"
csscolorparser = "*"
clap = { version = "4.6.7", features = ["derive"] }
font-kit = "0.14.3"
rusttype = "=0.9.3"
image = "=0.24.9"
imageproc = "=0.23.1"
