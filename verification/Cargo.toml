[package]
name = "ytune"
version = "0.1.0"
edition = "2021"
publish = false

[dependencies]
serde_json = "1"
discord-rich-presence = "1"
url = "2"
