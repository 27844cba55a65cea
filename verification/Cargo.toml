[package]
name = "deploy_rs"
version = "0.1.0"
edition = "2021"
publish = false

[dependencies]
anyhow = "1"
cargo_toml = "*"
log = "0.4"
rpassword = "5"
simple_logger = "*"
ssh2 = "0.9"
structopt = "0.3"
