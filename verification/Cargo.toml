[package]
name = "node_rs"
version = "0.1.0"
edition = "2021"
publish = false

[dependencies]
stdweb = "0.4"
stdweb-derive = "0.5"
