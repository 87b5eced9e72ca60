[package]
name = "rspirv_cfg"
version = "0.1.0"
edition = "2021"
publish = false

[dependencies]
rspirv = "*"
spirv_headers = "*"
clap = "*"
