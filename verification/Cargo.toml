[package]
name = "erika"
version = "0.1.0"
edition = "2021"
publish = false

[dependencies]
thiserror = "2"
ureq = "3"
