[package]
name = "dns_filter"
version = "0.1.0"
edition = "2021"
publish = false

[dependencies]
nfq = "*"
rand = "0.8"
threadpool = "*"
