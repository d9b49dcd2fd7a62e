[package]
name = "clashctl"
version = "0.1.0"
edition = "2021"
publish = false

[dependencies]
bytesize = "1"
chrono = "0.4"
crossterm = "0.25"
log = "0.4"
rayon = "1"
serde = { version = "1", features = ["derive"] }
serde_json = "1"
tui = "0.19"
