[package]
name = "codex_tools_core"
version = "0.1.0"
edition = "2021"
publish = false

[dependencies]
regex-lite = "0.1"
serde = { version = "1", features = ["derive"] }
serde_json = "1"
sha1 = "0.10"
similar = "2.7"
unicode-width = "0.2"
tokio = { version = "1", features = ["fs", "sync", "time", "rt", "macros"] }
ratatui = "0.29"
crossterm = "0.28"
pulldown-cmark = { version = "0.10", default-features = false }
