[package]
name = "st2038anc"
version = "0.1.0"
edition = "2021"
publish = false

[dependencies]
anyhow = "1"
bitstream-io = "2"
gstreamer = "0.23"
once_cell = "1"
