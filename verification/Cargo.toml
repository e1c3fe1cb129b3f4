[package]
name = "phorcys"
version = "0.1.0"
edition = "2021"
publish = false

[dependencies]
regex = "1"
base64 = "0.13"
serde = { version = "1", features = ["derive"] }
serde_json = "1"
toml = "0.5"
anyhow = "1"
thiserror = "1"
log = "0.4"
flexi_logger = "0.22"
clap = { version = "3", features = ["derive"] }
async-std = { version = "1", features = ["attributes"] }
futures = "0.3"
midir = "0.8"
midly = "0.5"
mlua = { version = "0.8", features = ["lua54", "vendored"] }
time = { version = "0.3", features = ["local-offset", "formatting"] }
directories = "4"
combine = "4"
