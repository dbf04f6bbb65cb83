[package]
name = "hurl_filters"
version = "0.1.0"
edition = "2021"
publish = false

[dependencies]
boa_engine = "*"
rustc_apfloat = "*"
