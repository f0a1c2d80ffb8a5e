[package]
name = "bulker"
version = "0.1.0"
edition = "2021"
publish = false

[dependencies]
anyhow = "1"
base64-url = "*"
clap = "4"
clap_complete = "4"
dirs = "*"
env_logger = "*"
log = "0.4"
nix = { version = "*", features = ["signal", "process", "user"] }
serde = { version = "1", features = ["derive"] }
serde_json = "1"
serde_yaml = "0.9"
serde_yml = "*"
sha2 = "0.10"
shell-escape = "0.1"
signal-hook = "0.3"
tempfile = "3"
tera = "1"
ureq = "2"
