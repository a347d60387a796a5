[package]
name = "famdo"
version = "0.1.0"
edition = "2021"
publish = false

[dependencies]
chrono = "*"
clap = { version = "*", features = ["derive"] }
colored = "*"
dirs = "*"
jsonschema = { version = "*", default-features = false }
reqwest = "*"
serde_json = { version = "*", features = ["preserve_order"] }
tiff = "*"
tokio = { version = "*", features = ["rt-multi-thread", "macros", "fs"] }
