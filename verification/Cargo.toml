[package]
name = "capter"
version = "0.1.0"
edition = "2021"
publish = false

[dependencies]
chrono = { version = "0.4", features = ["serde"] }
ci_info = "0.14"
clap = "2"
crossterm = "0.19"
dotenv = "0.15"
exitcode = "1"
globwalk = "0.8"
last-git-commit = "0.2"
path-clean = "0.1"
regex = "1"
serde = { version = "1", features = ["derive"] }
serde_json = "1"
serde_yaml = "0.8"
ureq = { version = "2", features = ["json"] }
