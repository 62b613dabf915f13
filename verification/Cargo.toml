[package]
name = "validador"
version = "0.1.0"
edition = "2021"
publish = false

[dependencies]
encoding_rs = "0.8"
chardetng = "*"
regex = "1"
unicode-normalization = "0.1"
sha2 = "*"
hex = "0.4"
serde = { version = "1", features = ["derive"] }
serde_json = "1"
dirs = "*"
futures = "0.3"
tokio = { version = "1", features = ["sync", "rt", "fs", "io-util", "macros"] }
polars = { version = "*", default-features = false, features = ["lazy", "csv", "strings", "temporal", "dtype-date", "json"] }
