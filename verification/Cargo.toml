[package]
name = "rosu_v2"
version = "0.1.0"
edition = "2021"
publish = false

[dependencies]
time = "0.3"
rkyv = "0.7"
futures = "0.3"
