[package]
name = "threadpooler"
version = "0.1.0"
edition = "2021"
publish = false

[dependencies]
num_cpus = "*"
crossbeam-channel = "*"
parking_lot = "*"
