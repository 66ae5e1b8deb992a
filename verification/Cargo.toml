[package]
name = "cargo_sysroot"
version = "0.1.0"
edition = "2021"
publish = false

[dependencies]
toml = "*"
curl = "*"
flate2 = "*"
tar = "*"
tempdir = "*"
rustc_version = "*"
clap = "*"
log = "*"
fern = "*"
