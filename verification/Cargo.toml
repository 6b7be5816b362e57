[package]
name = "early_paging"
version = "0.1.0"
edition = "2021"
publish = false

[dependencies]
multiboot2 = "=0.28.0"
