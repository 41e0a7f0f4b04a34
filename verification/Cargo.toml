[package]
name = "termrec"
version = "0.1.0"
edition = "2021"
publish = false

[dependencies]
anyhow = "1"
clap = { version = "4", features = ["derive"] }
crossterm = "0.28"
nix = { version = "0.29", features = ["term", "process", "poll", "signal", "fs"] }
plotters = "0.3"
ratatui = "0.29"
regex = "1"
serde = { version = "1", features = ["derive"] }
serde_json = "1"
vte = "0.13"
