[package]
name = "oxttl"
version = "0.1.0"
edition = "2021"
publish = false

[dependencies]
oxiri = "0.2"
oxrdf = { version = "0.2", features = ["rdf-star"] }
