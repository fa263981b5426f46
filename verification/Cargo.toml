[package]
name = "als_xml"
version = "0.1.0"
edition = "2021"
publish = false

[dependencies]
flate2 = "1"
quick-xml = "0.31"
