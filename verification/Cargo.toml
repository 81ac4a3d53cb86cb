[package]
name = "flake_parts_builder"
version = "0.1.0"
edition = "2021"
publish = false

[dependencies]
clap = { version = "*", features = ["derive"] }
color-eyre = "*"
diff = "*"
env_logger = "*"
fs_extra = "*"
log = "*"
minijinja = "*"
regex = "*"
serde = { version = "*", features = ["derive"] }
serde_json = "*"
tempfile = "*"
termcolor = "*"
thiserror = "*"
walkdir = "*"
which = "*"
