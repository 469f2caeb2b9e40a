[package]
name = "monkey"
version = "0.1.0"
edition = "2021"
publish = false

[dependencies]
chrono = "*"
leptos = { version = "*", features = ["csr"] }
