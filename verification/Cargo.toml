[package]
name = "hotmic"
version = "0.1.0"
edition = "2021"
publish = false

[dependencies]
crossbeam-channel = "0.5"
fnv = "1"
hdrhistogram = "7"
