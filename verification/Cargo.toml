[package]
name = "toolbx-zed"
version = "0.1.0"
edition = "2021"
publish = false

[dependencies]
ctrlc = "3"
libc = "0.2"
log = "0.4"
simplelog = "0.12"
