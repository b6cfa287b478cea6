[package]
name = "ya_self_test"
version = "0.1.0"
edition = "2021"
publish = false

[dependencies]
anyhow = "*"
parse-size = "*"
roxmltree = "*"
serde_json = "*"
sysinfo = "*"
