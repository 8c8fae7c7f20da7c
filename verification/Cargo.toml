[package]
name = "bufpool"
version = "0.1.0"
edition = "2021"
publish = false

[dependencies]
bytes = "1"
crossbeam-skiplist = "0.1"
io-uring = "*"
parking_lot = "0.12"
