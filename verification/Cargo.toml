[package]
name = "prefixed_id"
version = "0.1.0"
edition = "2021"
publish = false

[dependencies]
data-encoding = "2"
rand = "0.8"
sha2 = "0.10"
thiserror = "1"
