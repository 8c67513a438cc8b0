[package]
name = "glib_serde"
version = "0.1.0"
edition = "2021"
publish = false

[dependencies]
glib = "0.15"
serde = "1"
