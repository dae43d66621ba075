[package]
name = "shvl"
version = "0.1.0"
edition = "2021"
publish = false

[dependencies]
anyhow = "1"
clap = "4"
clap_complete = "4"
ctrlc = "3"
dialoguer = { version = "*", features = ["fuzzy-select"] }
rnix = "*"
serde = { version = "1", features = ["derive"] }
serde_json = "1"
tabled = "*"
