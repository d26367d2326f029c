[package]
name = "curlgenerator"
version = "0.1.0"
edition = "2021"
publish = false

[dependencies]
anyhow = "1"
clap = { version = "4", features = ["derive"] }
colored = "*"
openapiv3 = "*"
reqwest = { version = "*", features = ["blocking", "json"] }
serde_json = { version = "1", features = ["preserve_order"] }
serde_yaml = "*"
sw4rm-rs = "*"
thiserror = "*"
