[package]
name = "kite_agent"
version = "0.1.0"
edition = "2021"
publish = false

[dependencies]
base64 = "=0.22.1"
serde = { version = "=1.0.229", features = ["derive"] }
reqwest = { version = "=0.12.28", default-features = false, features = ["multipart"] }
mailparse = "=0.15.0"
imap = "=2.4.1"
imap-proto = "=0.10.2"
native-tls = "=0.2.18"
lettre = { version = "=0.11.23", default-features = false, features = ["builder", "smtp-transport", "native-tls", "hostname"] }
calamine = "=0.26.1"
zip = { version = "=2.2.2", default-features = false, features = ["deflate"] }
walkdir = "=2.5.0"
rfd = "0.15"
