[package]
name = "cutoff_list"
version = "0.1.0"
edition = "2021"
publish = false

[dependencies]
index_list = "*"
