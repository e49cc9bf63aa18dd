[package]
name = "print_rpc"
version = "0.1.0"
edition = "2021"
publish = false

[dependencies]
pipe = "*"
regex = "1"
unicode-segmentation = "1"
crossbeam-channel = "0.5"
walkdir = "2"
dirs = "*"
infer = "*"
log = "0.4"
xi-core-lib = "*"
xi-rpc = "*"
