[package]
name = "roster"
version = "0.1.0"
edition = "2021"
publish = false

[dependencies]
juniper = "*"
actix-web = "*"
serde_json = "*"
