[package]
name = "jptok"
version = "0.1.0"
edition = "2021"

[dependencies]
vibrato = "*"
serde_json = "1"
anyhow = "1"
log = "0.4"
fern = "*"
humantime = "2"
memmap2 = "*"
ruzstd = "*"
