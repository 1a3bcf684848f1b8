[package]
name = "rustbag"
version = "0.1.0"
edition = "2021"
publish = false

[dependencies]
regex = "1"
lz4_flex = "0.11"
bzip2-rs = "0.1"
anyhow = "1"
clap = { version = "4", features = ["derive"] }
indicatif = "0.17"
object_store = "*"
tokio = { version = "1", features = ["rt-multi-thread", "macros"] }
url = "2"
