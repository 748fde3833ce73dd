[package]
name = "symbolar"
version = "0.1.0"
edition = "2021"
publish = false

[dependencies]
bitvec = "=1.1.1"
lock_api = "=0.5.0"
parking_lot = "=0.13.0"
polars = { version = "=0.55.2", default-features = false, features = ["dtype-categorical"] }
rand = "=0.10.3"
