[package]
name = "hermitgrab"
version = "0.1.0"
edition = "2021"
publish = false

[dependencies]
anyhow = "1"
blake3 = "1"
clap = { version = "4", features = ["derive", "env"] }
crossterm = "*"
directories = "*"
git2 = "*"
handlebars = "6"
hostname = "*"
itertools = "*"
json-patch = "*"
jsonc-parser = { version = "*", features = ["serde"] }
log = "0.4"
oauth2 = "*"
octocrab = "*"
os_info = "3"
secrecy = "*"
serde = { version = "1", features = ["derive"] }
serde_json = "1"
serde_yaml_ng = "*"
shellexpand = "3"
simple_logger = "*"
tempfile = "3"
thiserror = "2"
tokio = { version = "1", features = ["rt-multi-thread", "macros"] }
toml = "*"
toml_edit = { version = "*", features = ["serde"] }
which = "*"
whoami = "*"
xxhash-rust = { version = "*", features = ["xxh3"] }
