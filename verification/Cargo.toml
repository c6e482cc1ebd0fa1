[package]
name = "aparte"
version = "0.1.0"
edition = "2021"
publish = false

[dependencies]
anyhow = "=1.0.104"
chrono = "=0.4.45"
log = "=0.4.34"
serde = { version = "=1.0.229", features = ["derive"] }
textwrap = "=0.16.4"
unicode-segmentation = "=1.13.3"
uuid = { version = "=1.29.0", features = ["v4"] }
xmpp-parsers = "=0.20.0"
