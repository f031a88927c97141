[package]
name = "ssbh_data"
version = "0.1.0"
edition = "2021"
publish = false

[dependencies]
bitvec = "1"
ssbh_lib = "*"
ssbh_write = "*"
binrw = "*"
binread = "*"
glam = "*"
itertools = "*"
thiserror = "*"
half = "*"
ahash = "*"
geometry_tools = "*"
modular-bitfield = "*"
