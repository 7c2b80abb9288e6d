[package]
name = "seru"
version = "0.1.0"
edition = "2021"
publish = false

[dependencies]
anyhow = "=1.0.104"
taffy = "=0.9.2"
skia-safe = { version = "=0.156.0", features = ["svg", "textlayout"] }
ureq = "=3.5.1"
serde_json = "=1.0.154"
unicode-ident = "=1.0.27"
