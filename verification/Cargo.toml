[package]
name = "recto"
version = "0.1.0"
edition = "2021"
publish = false

[dependencies]
anyhow = "1"
thiserror = "2"
async-channel = "2"
image = { version = "0.25", default-features = false }
clap = { version = "4", features = ["derive"] }
rayon = "1"
tracing = "0.1"
tracing-subscriber = { version = "0.3", features = ["env-filter", "fmt"] }
