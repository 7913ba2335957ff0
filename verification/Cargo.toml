[package]
name = "mail_intake"
version = "0.1.0"
edition = "2021"
publish = false

[dependencies]
anyhow = "1"
clap = { version = "4", features = ["derive"] }
imap = "2"
mailparse = "*"
native-tls = "0.2"
