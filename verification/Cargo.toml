[package]
name = "i18nrs"
version = "0.1.0"
edition = "2021"
publish = false

[dependencies]
clap = { version = "3", features = ["derive"] }
colored = "2"
comfy-table = "6"
exitcode = "1"
serde_json = "1"
