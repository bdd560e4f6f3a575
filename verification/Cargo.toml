[package]
name = "oxi-phil"
version = "0.1.0"
edition = "2021"
publish = false

[dependencies]
crossterm = "0.27"
quick-xml = "0.31"
ratatui = "0.26"
reqwest = { version = "0.11", features = ["blocking"] }
serde = { version = "1", features = ["derive"] }
serde_cbor = "0.11"
users = "0.11"
xz = "0.1"
