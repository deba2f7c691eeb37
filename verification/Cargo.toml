[package]
name = "roca"
version = "0.1.0"
edition = "2021"
publish = false

[dependencies]
serde = "1"
serde_xmlrpc = "*"
xml-doc = "*"
reqwest = { version = "*", default-features = false, features = ["blocking"] }
