[package]
name = "blag"
version = "0.1.0"
edition = "2021"
publish = false

[dependencies]
pulldown-cmark = "*"
serde = "1"
serde_json = "1"
structopt = "0.3"
tinytemplate = "1"
toml = "*"
