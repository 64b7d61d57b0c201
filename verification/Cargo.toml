[package]
name = "floof"
version = "0.1.0"
edition = "2021"
publish = false

[dependencies]
crossbeam-queue = "0.3"
pc-keyboard = "0.7"
conquer-once = "0.4"
