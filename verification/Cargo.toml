[package]
name = "inventory_system_app"
version = "0.1.0"
edition = "2021"
publish = false

[dependencies]
cursive = "*"
