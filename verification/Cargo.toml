[package]
name = "rdc2"
version = "0.1.0"
edition = "2021"
publish = false

[dependencies]
bitflags = "1.3"
bstr = "1"
cstr_core = "0.2"
log = "0.4"
