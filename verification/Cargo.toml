[package]
name = "zerostack_ui"
version = "0.1.0"
edition = "2021"
publish = false

[dependencies]
anyhow = "1"
chrono = { version = "0.4", default-features = false, features = ["clock", "std"] }
compact_str = "0.9"
crossterm = "0.29"
pulldown-cmark = { version = "0.13", default-features = false }
regex = "1"
smallvec = "1"
tokio = { version = "1", features = ["rt", "sync", "time", "process"] }
