[package]
name = "tenet"
version = "0.4.0"
edition = "2021"
publish = false

[dependencies]
serde_yaml = "0.9"
blake3 = "1"
pulldown-cmark = { version = "0.13", default-features = false }
serde = { version = "1", features = ["derive"] }
serde_json = "1"
toml = "0.8"
clap = { version = "4", features = ["derive", "env"] }
tokio = { version = "1", features = ["macros", "rt", "signal", "time"] }
ignore = "0.4"
tempfile = "3"
console = "0.16"
annotate-snippets = "0.12"
anyhow = "1"
futures-util = "0.3"
