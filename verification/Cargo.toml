[package]
name = "ftf_docs"
version = "0.1.0"
edition = "2021"
publish = false

[dependencies]
calamine = "*"
clap = { version = "4", features = ["derive"] }
printpdf = "0.7"
serde = { version = "1", features = ["derive"] }
serde_json = "1"
