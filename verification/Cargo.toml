[package]
name = "cursive_flexi_logger_view"
version = "0.1.0"
edition = "2021"
publish = false

[dependencies]
arraydeque = "*"
cursive_core = "*"
flexi_logger = "*"
lazy_static = "*"
log = "*"
time = "*"
unicode-width = "=0.1.14"
crossbeam-channel = "*"
