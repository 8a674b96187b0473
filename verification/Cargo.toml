[package]
name = "intern_arc"
version = "0.6.0"
edition = "2021"
publish = false

[dependencies]
once_cell = "1"
parking_lot = "0.12"
