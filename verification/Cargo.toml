[package]
name = "wikilinks"
version = "0.1.0"
edition = "2021"
publish = false

[dependencies]
pathdiff = "0.2"
regex = "1"
serde_yaml = "0.9"
