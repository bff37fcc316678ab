[package]
name = "pumpkinscript"
version = "0.1.0"
edition = "2021"
publish = false

[dependencies]
num-bigint = "0.4"
snowflake = "1"
lmdb-zero = "0.4"
