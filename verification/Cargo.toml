[package]
name = "componentize_mbt"
version = "0.1.0"
edition = "2021"
publish = false

[dependencies]
anyhow = "=1.0.104"
clap = { version = "=4.6.7", features = ["derive"] }
id-arena = "=2.3.0"
serde_json = "=1.0.151"
wast = "=261.0.0"
wit-component = "=0.261.0"
wit-parser = "=0.261.0"
