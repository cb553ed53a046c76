[package]
name = "vm_cache"
version = "0.1.0"
edition = "2021"
publish = false

[dependencies]
sha1 = "=0.10.7"
regex = "=1.13.1"
walkdir = "=2.5.0"
linreg = "=0.2.0"
prost-build = "=0.13.5"
tonic-build = "=0.12.3"

[dev-dependencies]
hex = "=0.4.3"
