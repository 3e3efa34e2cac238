[package]
name = "static_files"
version = "0.1.0"
edition = "2021"
publish = false

[dependencies]
async-trait = "=0.1.92"
clap = { version = "=4.6.7", features = ["derive"] }
http = "=1.5.0"
log = "=0.4.34"
maud = "=0.27.0"
pingora = { version = "=0.9.0", features = ["proxy"] }
pingora-core = "=0.9.0"
serde = { version = "=1.0.229", features = ["derive"] }
serde_yaml = "=0.9.34"
