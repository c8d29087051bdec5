[package]
name = "capnpc_embedded"
version = "0.1.0"
edition = "2021"
publish = false

[dependencies]
cap-std = "=3.4.6"
capnp = "=0.27.3"
capnpc = "=0.27.0"
tempfile = "=3.27.0"
wasmi = "=2.0.0"
wasmi_wasi = "=2.0.0"
