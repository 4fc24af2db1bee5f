[package]
name = "docx_text"
version = "0.1.0"
edition = "2021"
publish = false

[dependencies]
argparse = "0.2"
xml-rs = "0.8"
zip = { version = "*", default-features = false, features = ["deflate"] }
