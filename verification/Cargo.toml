[package]
name = "tmignore"
version = "0.1.0"
edition = "2021"
publish = false

[dependencies]
anyhow = "1"
bytesize = "2"
chrono = "0.4"
clap = { version = "4", features = ["derive"] }
core-foundation = "*"
crossbeam-channel = "0.5"
fern = "0.7"
fnmatch-regex = "*"
humantime = "2"
ignore = "0.4"
log = "0.4"
notify = "8"
oslog = "*"
regex = "1"
rusqlite = { version = "*", features = ["bundled", "chrono"] }
rusqlite_migration = "*"
serde = { version = "1", features = ["derive"] }
serde_json = "1"
shellexpand = "3"
signal-hook = "0.3"
thiserror = "2"
