[package]
name = "clusterit"
version = "0.1.0"
edition = "2021"
publish = false

[dependencies]
anyhow = "1"
dirs = "*"
fern = "0.6"
log = "0.4"
rand = "0.8"
regex = "1"
serde = { version = "1", features = ["derive"] }
serde_json = "1"
simple_logger = "*"
ssh = "*"
ssh2 = "0.9"
structopt = "0.3"
toml = "0.5"
