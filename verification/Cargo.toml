[package]
name = "autark"
version = "0.1.0"
edition = "2021"
publish = false

[dependencies]
slotmap = "1"
anyhow = "1"
rtrb = "0.3"
assert_no_alloc = "1"
cpal = "*"
