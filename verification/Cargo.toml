[package]
name = "ousia_atscale"
version = "0.5.0"
edition = "2021"
publish = false

[dependencies]
serde = { version = "1", features = ["derive"] }
serde_json = "1"
thiserror = "2"
anyhow = "1"
clap = { version = "4", features = ["derive"] }
sigpipe = "*"
tempfile = "3"
oxrdf = "*"
oxttl = "*"
mcp-core = "*"
