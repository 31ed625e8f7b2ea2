[package]
name = "assert_cmd"
version = "0.1.0"
edition = "2021"
publish = false

[dependencies]
bstr = "1"
