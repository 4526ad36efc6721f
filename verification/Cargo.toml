[package]
name = "imap"
version = "0.1.0"
edition = "2021"
publish = false

[dependencies]
clap = { version = "=4.6.7", features = ["derive"] }
oxc = { version = "=0.139.0", features = ["ast_visit"] }
serde = { version = "=1.0.229", features = ["derive"] }
serde_json = "=1.0.151"
walkdir = "=2.5.0"
yansi = "=1.0.1"
