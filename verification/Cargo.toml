[package]
name = "lmdb_stress"
version = "0.1.0"
edition = "2021"
publish = false

[dependencies]
byteorder = "=1.5.0"
lmdb = "=0.8.0"
lmdb-sys = "=0.8.0"
rand = "=0.6.5"

[dev-dependencies]
tempfile = "3"
