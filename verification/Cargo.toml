[package]
name = "psutils"
version = "0.1.0"
edition = "2021"
publish = false

[dependencies]
data-encoding = "1"
log = "0.4"
