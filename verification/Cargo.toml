[package]
name = "docsearch"
version = "0.1.0"
edition = "2021"
publish = false

[dependencies]
anyhow = "*"
colored = "*"
serde_json = "*"
tungstenite = "*"
