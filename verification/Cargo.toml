[package]
name = "udf_store"
version = "0.1.0"
edition = "2021"
publish = false

[dependencies]
serde_json = "*"
mlua = { version = "*", features = ["lua54", "vendored", "serialize"] }
