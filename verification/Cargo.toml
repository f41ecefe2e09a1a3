[package]
name = "create_process_w"
version = "0.1.0"
edition = "2021"
publish = false

[dependencies]
