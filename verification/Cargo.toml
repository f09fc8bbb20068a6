[package]
name = "trace2power"
version = "0.1.0"
edition = "2021"
publish = false

[dependencies]
chrono = "0.4"
clap = { version = "4", features = ["derive", "cargo"] }
indoc = "2"
itertools = "*"
rayon = "1"
sdcx = "*"
serde = { version = "1", features = ["derive"] }
serde_json = "1"
wellen = "*"
