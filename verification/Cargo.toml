[package]
name = "templet"
version = "0.1.0"
edition = "2021"
publish = false

[dependencies]
bevy_reflect = "=0.9.1"
byteorder = "=1.5.0"
nom-unicode = "=0.3.0"
thiserror = "=1.0.69"
v_htmlescape = "=0.15.8"
valuable = "=0.1.1"
walkdir = "=2.5.0"
